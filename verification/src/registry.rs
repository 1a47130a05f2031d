//! The crate's standard registry: one storage slot for every
//! component type the solitaire game uses.
//!
//! A world is generic over its registry, and each component type
//! finds its slot through its `Component` impl at compile time; this
//! module wires the game's component types to one concrete registry.
//! A project with other component types writes its own registry
//! struct and impls of the same shape.

use vstd::prelude::*;

use crate::ecs::{Component, ComponentStorage, Entity, Registry};
use crate::demo::{Card, EventLog, Player, Position};
use crate::game::{GameAction, GameState, TurnManager};
use crate::solitaire::{CardStack, SolitaireCard, SolitaireGameState};

verus! {

/// The registry used by the solitaire game: a slot per component
/// type.
pub struct GameRegistry {
    /// The `GameState` components.
    pub game_states: ComponentStorage<GameState>,
    /// The `TurnManager` components.
    pub turn_managers: ComponentStorage<TurnManager>,
    /// The `GameAction` components.
    pub game_actions: ComponentStorage<GameAction>,
    /// The `SolitaireCard` components.
    pub solitaire_cards: ComponentStorage<SolitaireCard>,
    /// The `SolitaireGameState` components.
    pub solitaire_states: ComponentStorage<SolitaireGameState>,
    /// The `CardStack` components.
    pub card_stacks: ComponentStorage<CardStack>,
    /// The `Card` components.
    pub cards: ComponentStorage<Card>,
    /// The `Player` components.
    pub players: ComponentStorage<Player>,
    /// The `Position` components.
    pub positions: ComponentStorage<Position>,
    /// The `EventLog` components.
    pub event_logs: ComponentStorage<EventLog>,
}

impl Registry for GameRegistry {
    open spec fn is_init(self) -> bool {
        &&& self.game_states@ == Map::<Entity, GameState>::empty() && self.game_states.entry_seq() == Seq::<(Entity, GameState)>::empty()
        &&& self.turn_managers@ == Map::<Entity, TurnManager>::empty() && self.turn_managers.entry_seq() == Seq::<(Entity, TurnManager)>::empty()
        &&& self.game_actions@ == Map::<Entity, GameAction>::empty() && self.game_actions.entry_seq() == Seq::<(Entity, GameAction)>::empty()
        &&& self.solitaire_cards@ == Map::<Entity, SolitaireCard>::empty() && self.solitaire_cards.entry_seq() == Seq::<(Entity, SolitaireCard)>::empty()
        &&& self.solitaire_states@ == Map::<Entity, SolitaireGameState>::empty() && self.solitaire_states.entry_seq() == Seq::<(Entity, SolitaireGameState)>::empty()
        &&& self.card_stacks@ == Map::<Entity, CardStack>::empty() && self.card_stacks.entry_seq() == Seq::<(Entity, CardStack)>::empty()
        &&& self.cards@ == Map::<Entity, Card>::empty() && self.cards.entry_seq() == Seq::<(Entity, Card)>::empty()
        &&& self.players@ == Map::<Entity, Player>::empty() && self.players.entry_seq() == Seq::<(Entity, Player)>::empty()
        &&& self.positions@ == Map::<Entity, Position>::empty() && self.positions.entry_seq() == Seq::<(Entity, Position)>::empty()
        &&& self.event_logs@ == Map::<Entity, EventLog>::empty() && self.event_logs.entry_seq() == Seq::<(Entity, EventLog)>::empty()
    }

    open spec fn reg_wf(self) -> bool {
        &&& self.game_states.wf()
        &&& self.turn_managers.wf()
        &&& self.game_actions.wf()
        &&& self.solitaire_cards.wf()
        &&& self.solitaire_states.wf()
        &&& self.card_stacks.wf()
        &&& self.cards.wf()
        &&& self.players.wf()
        &&& self.positions.wf()
        &&& self.event_logs.wf()
    }

    fn new() -> (r: GameRegistry) {
        GameRegistry {
            game_states: ComponentStorage::new(),
            turn_managers: ComponentStorage::new(),
            game_actions: ComponentStorage::new(),
            solitaire_cards: ComponentStorage::new(),
            solitaire_states: ComponentStorage::new(),
            card_stacks: ComponentStorage::new(),
            cards: ComponentStorage::new(),
            players: ComponentStorage::new(),
            positions: ComponentStorage::new(),
            event_logs: ComponentStorage::new(),
        }
    }
}

impl Component<GameRegistry> for GameState {
    open spec fn storage_of(r: GameRegistry) -> ComponentStorage<GameState> {
        r.game_states
    }

    open spec fn with_storage(r: GameRegistry, s: ComponentStorage<GameState>) -> GameRegistry {
        GameRegistry { game_states: s, ..r }
    }

    proof fn lemma_with_storage(r: GameRegistry, s: ComponentStorage<GameState>) {
    }

    proof fn lemma_with_storage_twice(
        r: GameRegistry,
        s1: ComponentStorage<GameState>,
        s2: ComponentStorage<GameState>,
    ) {
    }

    proof fn lemma_with_storage_self(r: GameRegistry) {
    }

    proof fn lemma_init_empty(r: GameRegistry) {
    }

    proof fn lemma_storage_wf(r: GameRegistry) {
    }

    proof fn lemma_with_storage_wf(r: GameRegistry, s: ComponentStorage<GameState>) {
    }

    fn storage(r: &GameRegistry) -> &ComponentStorage<GameState> {
        &r.game_states
    }

    fn storage_mut(r: &mut GameRegistry) -> &mut ComponentStorage<GameState> {
        &mut r.game_states
    }
}

impl Component<GameRegistry> for TurnManager {
    open spec fn storage_of(r: GameRegistry) -> ComponentStorage<TurnManager> {
        r.turn_managers
    }

    open spec fn with_storage(r: GameRegistry, s: ComponentStorage<TurnManager>) -> GameRegistry {
        GameRegistry { turn_managers: s, ..r }
    }

    proof fn lemma_with_storage(r: GameRegistry, s: ComponentStorage<TurnManager>) {
    }

    proof fn lemma_with_storage_twice(
        r: GameRegistry,
        s1: ComponentStorage<TurnManager>,
        s2: ComponentStorage<TurnManager>,
    ) {
    }

    proof fn lemma_with_storage_self(r: GameRegistry) {
    }

    proof fn lemma_init_empty(r: GameRegistry) {
    }

    proof fn lemma_storage_wf(r: GameRegistry) {
    }

    proof fn lemma_with_storage_wf(r: GameRegistry, s: ComponentStorage<TurnManager>) {
    }

    fn storage(r: &GameRegistry) -> &ComponentStorage<TurnManager> {
        &r.turn_managers
    }

    fn storage_mut(r: &mut GameRegistry) -> &mut ComponentStorage<TurnManager> {
        &mut r.turn_managers
    }
}

impl Component<GameRegistry> for GameAction {
    open spec fn storage_of(r: GameRegistry) -> ComponentStorage<GameAction> {
        r.game_actions
    }

    open spec fn with_storage(r: GameRegistry, s: ComponentStorage<GameAction>) -> GameRegistry {
        GameRegistry { game_actions: s, ..r }
    }

    proof fn lemma_with_storage(r: GameRegistry, s: ComponentStorage<GameAction>) {
    }

    proof fn lemma_with_storage_twice(
        r: GameRegistry,
        s1: ComponentStorage<GameAction>,
        s2: ComponentStorage<GameAction>,
    ) {
    }

    proof fn lemma_with_storage_self(r: GameRegistry) {
    }

    proof fn lemma_init_empty(r: GameRegistry) {
    }

    proof fn lemma_storage_wf(r: GameRegistry) {
    }

    proof fn lemma_with_storage_wf(r: GameRegistry, s: ComponentStorage<GameAction>) {
    }

    fn storage(r: &GameRegistry) -> &ComponentStorage<GameAction> {
        &r.game_actions
    }

    fn storage_mut(r: &mut GameRegistry) -> &mut ComponentStorage<GameAction> {
        &mut r.game_actions
    }
}

impl Component<GameRegistry> for SolitaireCard {
    open spec fn storage_of(r: GameRegistry) -> ComponentStorage<SolitaireCard> {
        r.solitaire_cards
    }

    open spec fn with_storage(r: GameRegistry, s: ComponentStorage<SolitaireCard>) -> GameRegistry {
        GameRegistry { solitaire_cards: s, ..r }
    }

    proof fn lemma_with_storage(r: GameRegistry, s: ComponentStorage<SolitaireCard>) {
    }

    proof fn lemma_with_storage_twice(
        r: GameRegistry,
        s1: ComponentStorage<SolitaireCard>,
        s2: ComponentStorage<SolitaireCard>,
    ) {
    }

    proof fn lemma_with_storage_self(r: GameRegistry) {
    }

    proof fn lemma_init_empty(r: GameRegistry) {
    }

    proof fn lemma_storage_wf(r: GameRegistry) {
    }

    proof fn lemma_with_storage_wf(r: GameRegistry, s: ComponentStorage<SolitaireCard>) {
    }

    fn storage(r: &GameRegistry) -> &ComponentStorage<SolitaireCard> {
        &r.solitaire_cards
    }

    fn storage_mut(r: &mut GameRegistry) -> &mut ComponentStorage<SolitaireCard> {
        &mut r.solitaire_cards
    }
}

impl Component<GameRegistry> for SolitaireGameState {
    open spec fn storage_of(r: GameRegistry) -> ComponentStorage<SolitaireGameState> {
        r.solitaire_states
    }

    open spec fn with_storage(r: GameRegistry, s: ComponentStorage<SolitaireGameState>) -> GameRegistry {
        GameRegistry { solitaire_states: s, ..r }
    }

    proof fn lemma_with_storage(r: GameRegistry, s: ComponentStorage<SolitaireGameState>) {
    }

    proof fn lemma_with_storage_twice(
        r: GameRegistry,
        s1: ComponentStorage<SolitaireGameState>,
        s2: ComponentStorage<SolitaireGameState>,
    ) {
    }

    proof fn lemma_with_storage_self(r: GameRegistry) {
    }

    proof fn lemma_init_empty(r: GameRegistry) {
    }

    proof fn lemma_storage_wf(r: GameRegistry) {
    }

    proof fn lemma_with_storage_wf(r: GameRegistry, s: ComponentStorage<SolitaireGameState>) {
    }

    fn storage(r: &GameRegistry) -> &ComponentStorage<SolitaireGameState> {
        &r.solitaire_states
    }

    fn storage_mut(r: &mut GameRegistry) -> &mut ComponentStorage<SolitaireGameState> {
        &mut r.solitaire_states
    }
}

impl Component<GameRegistry> for CardStack {
    open spec fn storage_of(r: GameRegistry) -> ComponentStorage<CardStack> {
        r.card_stacks
    }

    open spec fn with_storage(r: GameRegistry, s: ComponentStorage<CardStack>) -> GameRegistry {
        GameRegistry { card_stacks: s, ..r }
    }

    proof fn lemma_with_storage(r: GameRegistry, s: ComponentStorage<CardStack>) {
    }

    proof fn lemma_with_storage_twice(
        r: GameRegistry,
        s1: ComponentStorage<CardStack>,
        s2: ComponentStorage<CardStack>,
    ) {
    }

    proof fn lemma_with_storage_self(r: GameRegistry) {
    }

    proof fn lemma_init_empty(r: GameRegistry) {
    }

    proof fn lemma_storage_wf(r: GameRegistry) {
    }

    proof fn lemma_with_storage_wf(r: GameRegistry, s: ComponentStorage<CardStack>) {
    }

    fn storage(r: &GameRegistry) -> &ComponentStorage<CardStack> {
        &r.card_stacks
    }

    fn storage_mut(r: &mut GameRegistry) -> &mut ComponentStorage<CardStack> {
        &mut r.card_stacks
    }
}

impl Component<GameRegistry> for Card {
    open spec fn storage_of(r: GameRegistry) -> ComponentStorage<Card> {
        r.cards
    }

    open spec fn with_storage(r: GameRegistry, s: ComponentStorage<Card>) -> GameRegistry {
        GameRegistry { cards: s, ..r }
    }

    proof fn lemma_with_storage(r: GameRegistry, s: ComponentStorage<Card>) {
    }

    proof fn lemma_with_storage_twice(
        r: GameRegistry,
        s1: ComponentStorage<Card>,
        s2: ComponentStorage<Card>,
    ) {
    }

    proof fn lemma_with_storage_self(r: GameRegistry) {
    }

    proof fn lemma_init_empty(r: GameRegistry) {
    }

    proof fn lemma_storage_wf(r: GameRegistry) {
    }

    proof fn lemma_with_storage_wf(r: GameRegistry, s: ComponentStorage<Card>) {
    }

    fn storage(r: &GameRegistry) -> &ComponentStorage<Card> {
        &r.cards
    }

    fn storage_mut(r: &mut GameRegistry) -> &mut ComponentStorage<Card> {
        &mut r.cards
    }
}

impl Component<GameRegistry> for Player {
    open spec fn storage_of(r: GameRegistry) -> ComponentStorage<Player> {
        r.players
    }

    open spec fn with_storage(r: GameRegistry, s: ComponentStorage<Player>) -> GameRegistry {
        GameRegistry { players: s, ..r }
    }

    proof fn lemma_with_storage(r: GameRegistry, s: ComponentStorage<Player>) {
    }

    proof fn lemma_with_storage_twice(
        r: GameRegistry,
        s1: ComponentStorage<Player>,
        s2: ComponentStorage<Player>,
    ) {
    }

    proof fn lemma_with_storage_self(r: GameRegistry) {
    }

    proof fn lemma_init_empty(r: GameRegistry) {
    }

    proof fn lemma_storage_wf(r: GameRegistry) {
    }

    proof fn lemma_with_storage_wf(r: GameRegistry, s: ComponentStorage<Player>) {
    }

    fn storage(r: &GameRegistry) -> &ComponentStorage<Player> {
        &r.players
    }

    fn storage_mut(r: &mut GameRegistry) -> &mut ComponentStorage<Player> {
        &mut r.players
    }
}

impl Component<GameRegistry> for Position {
    open spec fn storage_of(r: GameRegistry) -> ComponentStorage<Position> {
        r.positions
    }

    open spec fn with_storage(r: GameRegistry, s: ComponentStorage<Position>) -> GameRegistry {
        GameRegistry { positions: s, ..r }
    }

    proof fn lemma_with_storage(r: GameRegistry, s: ComponentStorage<Position>) {
    }

    proof fn lemma_with_storage_twice(
        r: GameRegistry,
        s1: ComponentStorage<Position>,
        s2: ComponentStorage<Position>,
    ) {
    }

    proof fn lemma_with_storage_self(r: GameRegistry) {
    }

    proof fn lemma_init_empty(r: GameRegistry) {
    }

    proof fn lemma_storage_wf(r: GameRegistry) {
    }

    proof fn lemma_with_storage_wf(r: GameRegistry, s: ComponentStorage<Position>) {
    }

    fn storage(r: &GameRegistry) -> &ComponentStorage<Position> {
        &r.positions
    }

    fn storage_mut(r: &mut GameRegistry) -> &mut ComponentStorage<Position> {
        &mut r.positions
    }
}

impl Component<GameRegistry> for EventLog {
    open spec fn storage_of(r: GameRegistry) -> ComponentStorage<EventLog> {
        r.event_logs
    }

    open spec fn with_storage(r: GameRegistry, s: ComponentStorage<EventLog>) -> GameRegistry {
        GameRegistry { event_logs: s, ..r }
    }

    proof fn lemma_with_storage(r: GameRegistry, s: ComponentStorage<EventLog>) {
    }

    proof fn lemma_with_storage_twice(
        r: GameRegistry,
        s1: ComponentStorage<EventLog>,
        s2: ComponentStorage<EventLog>,
    ) {
    }

    proof fn lemma_with_storage_self(r: GameRegistry) {
    }

    proof fn lemma_init_empty(r: GameRegistry) {
    }

    proof fn lemma_storage_wf(r: GameRegistry) {
    }

    proof fn lemma_with_storage_wf(r: GameRegistry, s: ComponentStorage<EventLog>) {
    }

    fn storage(r: &GameRegistry) -> &ComponentStorage<EventLog> {
        &r.event_logs
    }

    fn storage_mut(r: &mut GameRegistry) -> &mut ComponentStorage<EventLog> {
        &mut r.event_logs
    }
}

} // verus!
