//! Solitaire card data and rules: suits, ranks, placement legality,
//! per-game state, and card stacks.
//!
//! Display coordinates are whole pixels (`i32`); animation between
//! positions is a rendering concern and stays outside the library.

use vstd::prelude::*;

use crate::ecs::{Component, Entity, Registry, System, World, distinct_keys};

verus! {

/// A card's suit.
#[derive(Debug, Clone, Copy, PartialEq, Eq, Structural)]
pub enum CardSuit {
    /// Hearts (red).
    Hearts,
    /// Diamonds (red).
    Diamonds,
    /// Clubs (black).
    Clubs,
    /// Spades (black).
    Spades,
}

impl CardSuit {
    /// The suit's one-character symbol.
    pub open spec fn spec_symbol(self) -> Seq<char> {
        match self {
            CardSuit::Hearts => "\u{2665}"@,
            CardSuit::Diamonds => "\u{2666}"@,
            CardSuit::Clubs => "\u{2663}"@,
            CardSuit::Spades => "\u{2660}"@,
        }
    }

    /// The suit's one-character symbol, as a string.
    pub fn symbol(&self) -> (s: &'static str)
        ensures
            s@ == self.spec_symbol(),
    {
        match self {
            CardSuit::Hearts => "\u{2665}",
            CardSuit::Diamonds => "\u{2666}",
            CardSuit::Clubs => "\u{2663}",
            CardSuit::Spades => "\u{2660}",
        }
    }

    /// All four suits, in a fixed order.
    pub fn all() -> (suits: [CardSuit; 4])
        ensures
            suits@ == seq![CardSuit::Hearts, CardSuit::Diamonds, CardSuit::Clubs, CardSuit::Spades],
    {
        let suits = [CardSuit::Hearts, CardSuit::Diamonds, CardSuit::Clubs, CardSuit::Spades];
        proof {
            assert(suits@ =~= seq![
                CardSuit::Hearts,
                CardSuit::Diamonds,
                CardSuit::Clubs,
                CardSuit::Spades,
            ]);
        }
        suits
    }
}

/// A card's rank, from ace (lowest) to king (highest).
#[derive(Debug, Clone, Copy, PartialEq, Eq, Structural)]
pub enum CardRank {
    /// Rank 1.
    Ace,
    /// Rank 2.
    Two,
    /// Rank 3.
    Three,
    /// Rank 4.
    Four,
    /// Rank 5.
    Five,
    /// Rank 6.
    Six,
    /// Rank 7.
    Seven,
    /// Rank 8.
    Eight,
    /// Rank 9.
    Nine,
    /// Rank 10.
    Ten,
    /// Rank 11.
    Jack,
    /// Rank 12.
    Queen,
    /// Rank 13.
    King,
}

impl CardRank {
    /// The rank's numeric value, 1 through 13.
    pub open spec fn spec_value(self) -> u32 {
        match self {
            CardRank::Ace => 1u32,
            CardRank::Two => 2u32,
            CardRank::Three => 3u32,
            CardRank::Four => 4u32,
            CardRank::Five => 5u32,
            CardRank::Six => 6u32,
            CardRank::Seven => 7u32,
            CardRank::Eight => 8u32,
            CardRank::Nine => 9u32,
            CardRank::Ten => 10u32,
            CardRank::Jack => 11u32,
            CardRank::Queen => 12u32,
            CardRank::King => 13u32,
        }
    }

    /// The rank's numeric value, 1 through 13.
    pub fn value(&self) -> (v: u32)
        ensures
            v == self.spec_value(),
            1 <= v <= 13,
    {
        match self {
            CardRank::Ace => 1,
            CardRank::Two => 2,
            CardRank::Three => 3,
            CardRank::Four => 4,
            CardRank::Five => 5,
            CardRank::Six => 6,
            CardRank::Seven => 7,
            CardRank::Eight => 8,
            CardRank::Nine => 9,
            CardRank::Ten => 10,
            CardRank::Jack => 11,
            CardRank::Queen => 12,
            CardRank::King => 13,
        }
    }

    /// The rank's display text.
    pub open spec fn spec_display(self) -> Seq<char> {
        match self {
            CardRank::Ace => "A"@,
            CardRank::Two => "2"@,
            CardRank::Three => "3"@,
            CardRank::Four => "4"@,
            CardRank::Five => "5"@,
            CardRank::Six => "6"@,
            CardRank::Seven => "7"@,
            CardRank::Eight => "8"@,
            CardRank::Nine => "9"@,
            CardRank::Ten => "10"@,
            CardRank::Jack => "J"@,
            CardRank::Queen => "Q"@,
            CardRank::King => "K"@,
        }
    }

    /// The rank's display text, as a string.
    pub fn display(&self) -> (s: &'static str)
        ensures
            s@ == self.spec_display(),
    {
        match self {
            CardRank::Ace => "A",
            CardRank::Two => "2",
            CardRank::Three => "3",
            CardRank::Four => "4",
            CardRank::Five => "5",
            CardRank::Six => "6",
            CardRank::Seven => "7",
            CardRank::Eight => "8",
            CardRank::Nine => "9",
            CardRank::Ten => "10",
            CardRank::Jack => "J",
            CardRank::Queen => "Q",
            CardRank::King => "K",
        }
    }

    /// All thirteen ranks, ace first.
    pub fn all() -> (ranks: [CardRank; 13])
        ensures
            ranks@.len() == 13,
            forall|i: int| 0 <= i < 13 ==> (#[trigger] ranks@[i]).spec_value() == i + 1,
    {
        let ranks = [
            CardRank::Ace,
            CardRank::Two,
            CardRank::Three,
            CardRank::Four,
            CardRank::Five,
            CardRank::Six,
            CardRank::Seven,
            CardRank::Eight,
            CardRank::Nine,
            CardRank::Ten,
            CardRank::Jack,
            CardRank::Queen,
            CardRank::King,
        ];
        ranks
    }
}

/// A card's color, determined by its suit.
#[derive(Debug, Clone, Copy, PartialEq, Eq, Structural)]
pub enum CardColor {
    /// Hearts and diamonds.
    Red,
    /// Clubs and spades.
    Black,
}

/// Where on the board a card lies.
#[derive(Debug, Clone, Copy, PartialEq, Eq, Structural)]
pub enum CardLocation {
    /// The face-down draw pile.
    Deck,
    /// The face-up pile beside the deck.
    Waste,
    /// The main columns of play.
    Tableau,
    /// The piles built up from ace to king.
    Foundation,
    /// A free cell (free-cell games only).
    FreeCell,
    /// In the player's hand, mid-move.
    Hand,
}

impl CardLocation {
    /// The location's display name.
    pub open spec fn spec_name(self) -> Seq<char> {
        match self {
            CardLocation::Deck => "deck"@,
            CardLocation::Waste => "waste"@,
            CardLocation::Tableau => "tableau"@,
            CardLocation::Foundation => "foundation"@,
            CardLocation::FreeCell => "free cell"@,
            CardLocation::Hand => "hand"@,
        }
    }

    /// The location's display name, as a string.
    pub fn name(&self) -> (s: &'static str)
        ensures
            s@ == self.spec_name(),
    {
        match self {
            CardLocation::Deck => "deck",
            CardLocation::Waste => "waste",
            CardLocation::Tableau => "tableau",
            CardLocation::Foundation => "foundation",
            CardLocation::FreeCell => "free cell",
            CardLocation::Hand => "hand",
        }
    }
}

/// Which solitaire variant is being played.
#[derive(Debug, Clone, Copy, PartialEq, Eq, Structural)]
pub enum SolitaireType {
    /// The classic single-deck game.
    Klondike,
    /// The two-deck game.
    Spider,
    /// The game with four free cells.
    FreeCell,
}

impl SolitaireType {
    /// The variant's display name.
    pub open spec fn spec_name(self) -> Seq<char> {
        match self {
            SolitaireType::Klondike => "klondike"@,
            SolitaireType::Spider => "spider"@,
            SolitaireType::FreeCell => "free cell"@,
        }
    }

    /// The variant's display name, as a string.
    pub fn name(&self) -> (s: &'static str)
        ensures
            s@ == self.spec_name(),
    {
        match self {
            SolitaireType::Klondike => "klondike",
            SolitaireType::Spider => "spider",
            SolitaireType::FreeCell => "free cell",
        }
    }

    /// How many cards must reach the foundations to win: one deck of
    /// 52, or two for spider.
    pub open spec fn spec_required_cards(self) -> u32 {
        match self {
            SolitaireType::Klondike => 52u32,
            SolitaireType::FreeCell => 52u32,
            SolitaireType::Spider => 104u32,
        }
    }
}

/// One playing card on a solitaire board, with its placement and
/// display state.
#[derive(Debug, Clone, Copy, PartialEq, Eq, Structural)]
pub struct SolitaireCard {
    /// The card's suit.
    pub suit: CardSuit,
    /// The card's rank.
    pub rank: CardRank,
    /// Whether the card lies face up.
    pub is_face_up: bool,
    /// Which kind of pile the card lies in.
    pub location_type: CardLocation,
    /// The pile's index (the tableau column, the foundation number),
    /// or the position within the deck.
    pub position_in_location: u32,
    /// Whether the card may be picked up.
    pub is_movable: bool,
    /// Whether the card is selected.
    pub is_selected: bool,
    /// Display position, in whole pixels.
    pub display_x: i32,
    /// Display position, in whole pixels.
    pub display_y: i32,
    /// Where the card is headed, in whole pixels.
    pub target_x: i32,
    /// Where the card is headed, in whole pixels.
    pub target_y: i32,
    /// Whether the card is between positions.
    pub is_animating: bool,
}

impl SolitaireCard {
    /// Whether a card in this state may be picked up: only face-up
    /// cards in the tableau, the waste pile, or a free cell.
    pub open spec fn spec_movable(self) -> bool {
        self.is_face_up && (self.location_type == CardLocation::Tableau || self.location_type
            == CardLocation::Waste || self.location_type == CardLocation::FreeCell)
    }

    /// The card's color: hearts and diamonds are red, clubs and
    /// spades black.
    pub open spec fn spec_color(self) -> CardColor {
        match self.suit {
            CardSuit::Hearts => CardColor::Red,
            CardSuit::Diamonds => CardColor::Red,
            CardSuit::Clubs => CardColor::Black,
            CardSuit::Spades => CardColor::Black,
        }
    }

    /// Creates a face-down card in the deck.
    pub fn new(suit: CardSuit, rank: CardRank) -> (c: SolitaireCard)
        ensures
            c == (SolitaireCard {
                suit,
                rank,
                is_face_up: false,
                location_type: CardLocation::Deck,
                position_in_location: 0u32,
                is_movable: false,
                is_selected: false,
                display_x: 0i32,
                display_y: 0i32,
                target_x: 0i32,
                target_y: 0i32,
                is_animating: false,
            }),
    {
        SolitaireCard {
            suit,
            rank,
            is_face_up: false,
            location_type: CardLocation::Deck,
            position_in_location: 0,
            is_movable: false,
            is_selected: false,
            display_x: 0,
            display_y: 0,
            target_x: 0,
            target_y: 0,
            is_animating: false,
        }
    }

    /// Turns the card face up and refreshes whether it may be picked
    /// up.
    pub fn flip_up(&mut self)
        ensures
            *final(self) == (SolitaireCard {
                is_face_up: true,
                is_movable: (SolitaireCard { is_face_up: true, ..*old(self) }).spec_movable(),
                ..*old(self)
            }),
    {
        self.is_face_up = true;
        self.update_movability();
    }

    /// Turns the card face down; a face-down card can be neither
    /// picked up nor selected.
    pub fn flip_down(&mut self)
        ensures
            *final(self) == (SolitaireCard {
                is_face_up: false,
                is_movable: false,
                is_selected: false,
                ..*old(self)
            }),
    {
        self.is_face_up = false;
        self.is_movable = false;
        self.is_selected = false;
    }

    /// Moves the card to a pile and refreshes whether it may be
    /// picked up.
    pub fn set_location(&mut self, location_type: CardLocation, position: u32)
        ensures
            *final(self) == (SolitaireCard {
                location_type,
                position_in_location: position,
                is_movable: (SolitaireCard {
                    location_type,
                    position_in_location: position,
                    ..*old(self)
                }).spec_movable(),
                ..*old(self)
            }),
    {
        self.location_type = location_type;
        self.position_in_location = position;
        self.update_movability();
    }

    /// Sets the display position.
    pub fn set_display_position(&mut self, x: i32, y: i32)
        ensures
            *final(self) == (SolitaireCard { display_x: x, display_y: y, ..*old(self) }),
    {
        self.display_x = x;
        self.display_y = y;
    }

    /// Marks the card as moving towards a target position.
    pub fn start_animation(&mut self, target_x: i32, target_y: i32)
        ensures
            *final(self) == (SolitaireCard {
                target_x,
                target_y,
                is_animating: true,
                ..*old(self)
            }),
    {
        self.target_x = target_x;
        self.target_y = target_y;
        self.is_animating = true;
    }

    /// Puts the card at its target position and ends the move.
    pub fn finish_animation(&mut self)
        ensures
            *final(self) == (SolitaireCard {
                display_x: old(self).target_x,
                display_y: old(self).target_y,
                is_animating: false,
                ..*old(self)
            }),
    {
        self.display_x = self.target_x;
        self.display_y = self.target_y;
        self.is_animating = false;
    }

    /// Refreshes whether the card may be picked up, from its face
    /// and its pile.
    fn update_movability(&mut self)
        ensures
            *final(self) == (SolitaireCard { is_movable: old(self).spec_movable(), ..*old(self) }),
    {
        if !self.is_face_up {
            self.is_movable = false;
            return ;
        }
        match self.location_type {
            CardLocation::Foundation => {
                self.is_movable = false;
            },
            CardLocation::Tableau => {
                self.is_movable = true;
            },
            CardLocation::Waste => {
                self.is_movable = true;
            },
            CardLocation::FreeCell => {
                self.is_movable = true;
            },
            _ => {
                self.is_movable = false;
            },
        }
    }

    /// The card's color.
    pub fn get_color(&self) -> (c: CardColor)
        ensures
            c == self.spec_color(),
    {
        match self.suit {
            CardSuit::Hearts => CardColor::Red,
            CardSuit::Diamonds => CardColor::Red,
            CardSuit::Clubs => CardColor::Black,
            CardSuit::Spades => CardColor::Black,
        }
    }

    /// Whether this card may be laid on `other` in the tableau: the
    /// colors must differ and `other` must rank exactly one higher.
    pub open spec fn spec_can_place_on_tableau(self, other: SolitaireCard) -> bool {
        self.spec_color() != other.spec_color() && other.rank.spec_value()
            == self.rank.spec_value() + 1
    }

    /// Whether this card may be laid on `other` in the tableau.
    pub fn can_place_on_tableau(&self, other: &SolitaireCard) -> (b: bool)
        ensures
            b == self.spec_can_place_on_tableau(*other),
    {
        self.get_color() != other.get_color() && other.rank.value() == self.rank.value() + 1
    }

    /// Whether this card may open an empty tableau column: only a
    /// king may.
    pub fn can_place_on_empty_tableau(&self) -> (b: bool)
        ensures
            b == (self.rank == CardRank::King),
    {
        self.rank == CardRank::King
    }

    /// Whether this card may go on a foundation pile whose top card
    /// is `foundation_top`: an ace on an empty pile, else the same
    /// suit and exactly one rank higher than the top.
    pub open spec fn spec_can_place_on_foundation(
        self,
        foundation_top: Option<SolitaireCard>,
    ) -> bool {
        match foundation_top {
            None => self.rank == CardRank::Ace,
            Some(top) => self.suit == top.suit && self.rank.spec_value() == top.rank.spec_value()
                + 1,
        }
    }

    /// Whether this card may go on a foundation pile whose top card
    /// is `foundation_top`.
    pub fn can_place_on_foundation(&self, foundation_top: Option<&SolitaireCard>) -> (b: bool)
        ensures
            b == self.spec_can_place_on_foundation(
                match foundation_top {
                    Some(t) => Some(*t),
                    None => None::<SolitaireCard>,
                },
            ),
    {
        match foundation_top {
            None => self.rank == CardRank::Ace,
            Some(top) => self.suit == top.suit && self.rank.value() == top.rank.value() + 1,
        }
    }
}


/// The running state of one solitaire game: score, move count, and
/// completion.
#[derive(Debug, Clone, Copy, PartialEq, Eq, Structural)]
pub struct SolitaireGameState {
    /// Which variant is being played.
    pub game_type: SolitaireType,
    /// The current score.
    pub score: u32,
    /// How many moves were made.
    pub move_count: u32,
    /// When the game began, in seconds since the epoch.
    pub start_time: u64,
    /// Whether the game is over.
    pub is_completed: bool,
    /// Whether the game was won.
    pub is_won: bool,
    /// How often the deck was turned.
    pub deck_turns: u32,
    /// Whether a hint may still be offered.
    pub hint_available: bool,
    /// Seconds since the last player action.
    pub idle_time: u64,
}

impl SolitaireGameState {
    /// The state a fresh game of `game_type` begun at `now` starts
    /// in.
    pub open spec fn fresh(game_type: SolitaireType, now: u64) -> SolitaireGameState {
        SolitaireGameState {
            game_type,
            score: 0u32,
            move_count: 0u32,
            start_time: now,
            is_completed: false,
            is_won: false,
            deck_turns: 0u32,
            hint_available: true,
            idle_time: 0u64,
        }
    }

    /// The time bonus of the final score: 100 points under five
    /// minutes, 50 under ten, none later.
    pub open spec fn spec_time_bonus(self, now: u64) -> u32 {
        if now - self.start_time < 300 {
            100u32
        } else if now - self.start_time < 600 {
            50u32
        } else {
            0u32
        }
    }

    /// The move penalty of the final score: 20 points over 200
    /// moves, 10 over 100, none below.
    pub open spec fn spec_move_penalty(self) -> u32 {
        if self.move_count > 200 {
            20u32
        } else if self.move_count > 100 {
            10u32
        } else {
            0u32
        }
    }

    /// The final score: the current score plus the time bonus minus
    /// the move penalty, saturating at the ends of `u32`.
    pub open spec fn spec_final_score(self, now: u64) -> u32 {
        let bonus = self.spec_time_bonus(now);
        let with_bonus = if self.score + bonus > u32::MAX {
            u32::MAX
        } else {
            (self.score + bonus) as u32
        };
        let penalty = self.spec_move_penalty();
        if with_bonus < penalty {
            0u32
        } else {
            (with_bonus - penalty) as u32
        }
    }

    /// Creates the state of a fresh game of `game_type`, begun at
    /// time `now` (seconds since the epoch).
    pub fn new(game_type: SolitaireType, now: u64) -> (g: SolitaireGameState)
        ensures
            g == SolitaireGameState::fresh(game_type, now),
    {
        SolitaireGameState {
            game_type,
            score: 0,
            move_count: 0,
            start_time: now,
            is_completed: false,
            is_won: false,
            deck_turns: 0,
            hint_available: true,
            idle_time: 0,
        }
    }

    /// Counts one move worth `points`, adds the points to the score,
    /// and resets the idle clock.
    pub fn record_move(&mut self, points: u32)
        requires
            old(self).move_count < u32::MAX,
            old(self).score + points <= u32::MAX,
        ensures
            *final(self) == (SolitaireGameState {
                move_count: (old(self).move_count + 1) as u32,
                score: (old(self).score + points) as u32,
                idle_time: 0u64,
                ..*old(self)
            }),
    {
        self.move_count = self.move_count + 1;
        self.score = self.score + points;
        self.idle_time = 0;
    }

    /// Counts one turn of the deck and resets the idle clock.  From
    /// the third turn on, two points are deducted while the score
    /// allows it.
    pub fn record_deck_turn(&mut self)
        requires
            old(self).deck_turns < u32::MAX,
        ensures
            *final(self) == (SolitaireGameState {
                deck_turns: (old(self).deck_turns + 1) as u32,
                score: (if old(self).deck_turns + 1 > 2 && old(self).score >= 2 {
                    (old(self).score - 2) as u32
                } else {
                    old(self).score
                }),
                idle_time: 0u64,
                ..*old(self)
            }),
    {
        self.deck_turns = self.deck_turns + 1;
        self.idle_time = 0;
        if self.deck_turns > 2 {
            if self.score >= 2 {
                self.score = self.score - 2;
            }
        }
    }

    /// Folds the time bonus and move penalty into the score, at the
    /// end of a won game, `now` being the present time.
    pub fn calculate_final_score(&mut self, now: u64)
        requires
            now >= old(self).start_time,
        ensures
            *final(self) == (SolitaireGameState {
                score: old(self).spec_final_score(now),
                ..*old(self)
            }),
    {
        let elapsed_time = now - self.start_time;
        let time_bonus: u32 = if elapsed_time < 300 {
            100
        } else if elapsed_time < 600 {
            50
        } else {
            0
        };
        let move_penalty: u32 = if self.move_count > 200 {
            20
        } else if self.move_count > 100 {
            10
        } else {
            0
        };
        self.score = self.score.saturating_add(time_bonus).saturating_sub(move_penalty);
    }

    /// Adds elapsed whole seconds to the idle clock.
    pub fn update_idle_time(&mut self, delta_seconds: u64)
        requires
            old(self).idle_time + delta_seconds <= u64::MAX,
        ensures
            *final(self) == (SolitaireGameState {
                idle_time: (old(self).idle_time + delta_seconds) as u64,
                ..*old(self)
            }),
    {
        self.idle_time = self.idle_time + delta_seconds;
    }
}

/// A pile of cards on the board, ordered bottom to top.
#[derive(Debug, Clone, PartialEq)]
pub struct CardStack {
    /// The cards in the pile, bottom first.
    pub cards: std::collections::VecDeque<Entity>,
    /// Which kind of pile this is.
    pub stack_type: CardLocation,
    /// The pile's index (tableau column, foundation number).
    pub stack_index: u32,
    /// The pile's base position, in whole pixels.
    pub base_x: i32,
    /// The pile's base position, in whole pixels.
    pub base_y: i32,
    /// The vertical offset between fanned-out cards, in pixels.
    pub card_spacing: i32,
    /// The most cards the pile may hold; -1 means no bound.
    pub max_capacity: i32,
}

impl CardStack {
    /// The spacing and capacity a pile of the given kind gets: the
    /// tableau fans cards out and is unbounded, a foundation holds a
    /// suit of 13, a free cell holds one card, everything else
    /// stacks without bound.
    pub open spec fn spec_layout(stack_type: CardLocation) -> (i32, i32) {
        match stack_type {
            CardLocation::Tableau => (20i32, -1i32),
            CardLocation::Foundation => (0i32, 13i32),
            CardLocation::FreeCell => (0i32, 1i32),
            _ => (0i32, -1i32),
        }
    }

    /// Creates an empty pile of the given kind at a base position.
    pub fn new(stack_type: CardLocation, stack_index: u32, base_x: i32, base_y: i32) -> (s:
        CardStack)
        ensures
            s.cards@ == Seq::<Entity>::empty(),
            s.stack_type == stack_type,
            s.stack_index == stack_index,
            s.base_x == base_x,
            s.base_y == base_y,
            (s.card_spacing, s.max_capacity) == CardStack::spec_layout(stack_type),
    {
        let (card_spacing, max_capacity) = match stack_type {
            CardLocation::Tableau => (20, -1),
            CardLocation::Foundation => (0, 13),
            CardLocation::FreeCell => (0, 1),
            CardLocation::Waste => (0, -1),
            _ => (0, -1),
        };
        CardStack {
            cards: std::collections::VecDeque::new(),
            stack_type,
            stack_index,
            base_x,
            base_y,
            card_spacing,
            max_capacity,
        }
    }

    /// Lays a card on top of the pile if the pile has room; reports
    /// whether it did.
    pub fn push_card(&mut self, card_entity: Entity) -> (ok: bool)
        ensures
            ok == !(old(self).max_capacity > 0 && old(self).cards@.len()
                >= old(self).max_capacity),
            ok ==> *final(self) == (CardStack {
                cards: final(self).cards,
                ..*old(self)
            }) && final(self).cards@ == old(self).cards@.push(card_entity),
            !ok ==> *final(self) == *old(self),
    {
        if self.max_capacity > 0 && self.cards.len() >= self.max_capacity as usize {
            return false;
        }
        self.cards.push_back(card_entity);
        true
    }

    /// Takes the top card off the pile, if the pile has one.
    pub fn pop_card(&mut self) -> (top: Option<Entity>)
        ensures
            *final(self) == (CardStack { cards: final(self).cards, ..*old(self) }),
            old(self).cards@.len() == 0 ==> top == None::<Entity>
                && final(self).cards@ == old(self).cards@,
            old(self).cards@.len() > 0 ==> top == Some(old(self).cards@.last())
                && final(self).cards@ == old(self).cards@.drop_last(),
    {
        self.cards.pop_back()
    }

    /// The top card of the pile, if the pile has one; the pile is
    /// left as it is.
    pub fn peek_top(&self) -> (top: Option<Entity>)
        ensures
            self.cards@.len() == 0 ==> top == None::<Entity>,
            self.cards@.len() > 0 ==> top == Some(self.cards@.last()),
    {
        if self.cards.len() > 0 {
            Some(self.cards[self.cards.len() - 1])
        } else {
            None
        }
    }

    /// Whether the pile holds no cards.
    pub fn is_empty(&self) -> (b: bool)
        ensures
            b == (self.cards@.len() == 0),
    {
        self.cards.len() == 0
    }

    /// How many cards the pile holds.
    pub fn len(&self) -> (n: usize)
        ensures
            n == self.cards@.len(),
    {
        self.cards.len()
    }

    /// Where the card at `position` (0 is the bottom) is displayed:
    /// the tableau fans cards downward by `card_spacing`; every
    /// other pile stacks them on the base position.
    pub fn calculate_card_position(&self, position: usize) -> (xy: (i32, i32))
        requires
            position <= i32::MAX,
            self.stack_type == CardLocation::Tableau ==> i32::MIN <= self.base_y + position
                * self.card_spacing <= i32::MAX,
        ensures
            self.stack_type == CardLocation::Tableau ==> xy == (
                self.base_x,
                (self.base_y + position * self.card_spacing) as i32,
            ),
            self.stack_type != CardLocation::Tableau ==> xy == (self.base_x, self.base_y),
    {
        match self.stack_type {
            CardLocation::Tableau => {
                let offset: i64 = (position as i64) * (self.card_spacing as i64);
                let y: i64 = (self.base_y as i64) + offset;
                (self.base_x, y as i32)
            },
            _ => (self.base_x, self.base_y),
        }
    }
}


/// Whether a card lies on the foundation pile `foundation_index`.
pub open spec fn at_foundation(c: SolitaireCard, foundation_index: u32) -> bool {
    c.location_type == CardLocation::Foundation && c.position_in_location == foundation_index
}

/// Whether a card is a face-up member of tableau column `column`.
pub open spec fn tableau_face_up(c: SolitaireCard, column: u32) -> bool {
    c.location_type == CardLocation::Tableau && c.position_in_location == column && c.is_face_up
}

/// Whether a card lies in tableau column `column`.
pub open spec fn in_tableau_column(c: SolitaireCard, column: u32) -> bool {
    c.location_type == CardLocation::Tableau && c.position_in_location == column
}

/// Whether `top` is the top of foundation pile `fi` in `m`: the
/// highest-ranked card lying there, or nothing when the pile is
/// empty.
pub open spec fn foundation_top_spec(
    m: Map<Entity, SolitaireCard>,
    fi: u32,
    top: Option<SolitaireCard>,
) -> bool {
    match top {
        Some(c) => {
            &&& exists|e: Entity| #[trigger] m.dom().contains(e) && m[e] == c
            &&& at_foundation(c, fi)
            &&& forall|e: Entity|
                #[trigger] m.dom().contains(e) && at_foundation(m[e], fi)
                    ==> m[e].rank.spec_value() <= c.rank.spec_value()
        },
        None => forall|e: Entity| #[trigger] m.dom().contains(e) ==> !at_foundation(m[e], fi),
    }
}

/// Whether `top` is the top of tableau column `column` in `m`: the
/// deepest-displayed face-up card there, or nothing when the column
/// has no face-up card.
pub open spec fn tableau_top_spec(
    m: Map<Entity, SolitaireCard>,
    column: u32,
    top: Option<SolitaireCard>,
) -> bool {
    match top {
        Some(c) => {
            &&& exists|e: Entity| #[trigger] m.dom().contains(e) && m[e] == c
            &&& tableau_face_up(c, column)
            &&& forall|e: Entity|
                #[trigger] m.dom().contains(e) && tableau_face_up(m[e], column)
                    ==> m[e].display_y <= c.display_y
        },
        None => forall|e: Entity| #[trigger] m.dom().contains(e) ==> !tableau_face_up(m[e], column),
    }
}

/// Whether some listed card is a king on foundation pile `fi`.
pub open spec fn king_on_foundation(m: Map<Entity, SolitaireCard>, fi: u32) -> bool {
    exists|e: Entity|
        #[trigger] m.dom().contains(e) && at_foundation(m[e], fi) && m[e].rank == CardRank::King
}

/// How many of the listed cards lie in tableau column `column`.
pub open spec fn spec_tableau_count(s: Seq<(Entity, SolitaireCard)>, column: u32) -> nat {
    s.filter(|p: (Entity, SolitaireCard)| in_tableau_column(p.1, column)).len()
}

/// Replacing one element turns the bag of elements accordingly.
proof fn lemma_update_multiset<T>(s: Seq<T>, i: int, v: T)
    requires
        0 <= i < s.len(),
    ensures
        s.update(i, v).to_multiset() =~= s.to_multiset().remove(s[i]).insert(v),
{
    broadcast use vstd::seq_lib::group_to_multiset_ensures;

    assert(s.update(i, v).remove(i) =~= s.remove(i));
    assert(s.update(i, v)[i] == v);
    assert(s.update(i, v).contains(v));
    assert(s.update(i, v).to_multiset() =~= s.update(i, v).to_multiset().remove(v).insert(v));
    assert(s.update(i, v).to_multiset().remove(v) =~= s.to_multiset().remove(s[i]));
}

/// Exchanging two elements leaves the bag of elements as it was.
proof fn lemma_swap_multiset<T>(s: Seq<T>, i: int, j: int)
    requires
        0 <= i < s.len(),
        0 <= j < s.len(),
    ensures
        s.update(i, s[j]).update(j, s[i]).to_multiset() =~= s.to_multiset(),
{
    broadcast use vstd::seq_lib::group_to_multiset_ensures;

    if i == j {
        assert(s.update(i, s[j]).update(j, s[i]) =~= s);
    } else {
        let a = s[i];
        let b = s[j];
        let s1 = s.update(i, b);
        lemma_update_multiset(s, i, b);
        assert(s1[j] == b);
        lemma_update_multiset(s1, j, a);
        assert(s.contains(a)) by {
            assert(s[i] == a);
        }
        assert(s.to_multiset().count(a) > 0);
        assert(s1.update(j, a).to_multiset() =~= s.to_multiset().remove(a).insert(b).remove(
            b,
        ).insert(a));
        assert(s.to_multiset().remove(a).insert(b).remove(b) =~= s.to_multiset().remove(a));
        assert(s.to_multiset().remove(a).insert(a) =~= s.to_multiset());
    }
}

/// Whole-game operations: building and dealing decks, drawing, and
/// automatic placement.
pub struct SolitaireManager;

impl SolitaireManager {
    /// Rearranges `cards` deterministically from `seed`; the result
    /// holds exactly the cards given, whatever the seed.
    pub fn shuffle_cards(cards: &mut Vec<Entity>, seed: usize)
        ensures
            final(cards)@.len() == old(cards)@.len(),
            final(cards)@.to_multiset() == old(cards)@.to_multiset(),
    {
        let n = cards.len();
        if n == 0 {
            return ;
        }
        let mut i: usize = n - 1;
        while i >= 1
            invariant
                n == cards@.len(),
                0 <= i < n,
                cards@.to_multiset() == old(cards)@.to_multiset(),
            decreases i,
        {
            let j = seed.wrapping_mul(i + 1).wrapping_mul(31) % (i + 1);
            let ghost before = cards@;
            let a = cards[i];
            let b = cards[j];
            cards[i] = b;
            cards[j] = a;
            proof {
                assert(cards@ =~= before.update(i as int, before[j as int]).update(
                    j as int,
                    before[i as int],
                ));
                lemma_swap_multiset(before, i as int, j as int);
            }
            if i == 1 {
                break ;
            }
            i -= 1;
        }
    }

    /// The highest-ranked card on foundation pile `foundation_index`
    /// — its top card — or nothing when the pile is empty.
    pub fn get_foundation_top<R: Registry>(world: &World<R>, foundation_index: u32) -> (top:
        Option<SolitaireCard>) where SolitaireCard: Component<R>
        requires
            world.wf(),
        ensures
            foundation_top_spec(world.component_map::<SolitaireCard>(), foundation_index, top),
    {
        let entries = world.query::<SolitaireCard>();
        let n = entries.len();
        let mut best: Option<SolitaireCard> = None;
        let mut i: usize = 0;
        while i < n
            invariant
                world.wf(),
                n == entries@.len(),
                entries@ == world.component_seq::<SolitaireCard>(),
                distinct_keys(entries@),
                forall|k: int|
                    0 <= k < entries@.len() ==> world.component_map::<
                        SolitaireCard,
                    >().dom().contains((#[trigger] entries@[k]).0) && world.component_map::<
                        SolitaireCard,
                    >()[entries@[k].0] == entries@[k].1,
                0 <= i <= n,
                match best {
                    Some(c) => {
                        &&& exists|k: int|
                            0 <= k < i && (#[trigger] entries@[k]).1 == c
                        &&& at_foundation(c, foundation_index)
                        &&& forall|k: int|
                            0 <= k < i && at_foundation(
                                (#[trigger] entries@[k]).1,
                                foundation_index,
                            ) ==> entries@[k].1.rank.spec_value() <= c.rank.spec_value()
                    },
                    None => forall|k: int|
                        0 <= k < i ==> !at_foundation(
                            (#[trigger] entries@[k]).1,
                            foundation_index,
                        ),
                },
            decreases n - i,
        {
            let card = &entries[i].1;
            if card.location_type == CardLocation::Foundation && card.position_in_location
                == foundation_index {
                match best {
                    Some(b) => {
                        if card.rank.value() > b.rank.value() {
                            best = Some(*card);
                        }
                    },
                    None => {
                        best = Some(*card);
                    },
                }
            }
            i += 1;
        }
        proof {
            match best {
                Some(c) => {
                    assert forall|e: Entity|
                        #[trigger] world.component_map::<SolitaireCard>().dom().contains(e)
                            && at_foundation(
                            world.component_map::<SolitaireCard>()[e],
                            foundation_index,
                        ) implies world.component_map::<SolitaireCard>()[e].rank.spec_value()
                        <= c.rank.spec_value() by {
                        let k = choose|k: int|
                            0 <= k < entries@.len() && (#[trigger] entries@[k]) == (
                            e,
                            world.component_map::<SolitaireCard>()[e],
                            );
                        assert(entries@[k].1 == world.component_map::<SolitaireCard>()[e]);
                    };
                    let k = choose|k: int| 0 <= k < n && (#[trigger] entries@[k]).1 == c;
                    assert(world.component_map::<SolitaireCard>().dom().contains(entries@[k].0));
                },
                None => {
                    assert forall|e: Entity|
                        #[trigger] world.component_map::<SolitaireCard>().dom().contains(e)
                            implies !at_foundation(
                        world.component_map::<SolitaireCard>()[e],
                        foundation_index,
                    ) by {
                        let k = choose|k: int|
                            0 <= k < entries@.len() && (#[trigger] entries@[k]) == (
                            e,
                            world.component_map::<SolitaireCard>()[e],
                            );
                        assert(entries@[k].1 == world.component_map::<SolitaireCard>()[e]);
                    };
                },
            }
        }
        best
    }

    /// The lowest-lying face-up card of tableau column `column` (the
    /// one displayed deepest), or nothing when the column has no
    /// face-up card.
    pub fn get_tableau_top<R: Registry>(world: &World<R>, column: u32) -> (top: Option<
        SolitaireCard,
    >) where SolitaireCard: Component<R>
        requires
            world.wf(),
        ensures
            tableau_top_spec(world.component_map::<SolitaireCard>(), column, top),
    {
        let entries = world.query::<SolitaireCard>();
        let n = entries.len();
        let mut best: Option<SolitaireCard> = None;
        let mut i: usize = 0;
        while i < n
            invariant
                world.wf(),
                n == entries@.len(),
                entries@ == world.component_seq::<SolitaireCard>(),
                forall|k: int|
                    0 <= k < entries@.len() ==> world.component_map::<
                        SolitaireCard,
                    >().dom().contains((#[trigger] entries@[k]).0) && world.component_map::<
                        SolitaireCard,
                    >()[entries@[k].0] == entries@[k].1,
                0 <= i <= n,
                match best {
                    Some(c) => {
                        &&& exists|k: int| 0 <= k < i && (#[trigger] entries@[k]).1 == c
                        &&& tableau_face_up(c, column)
                        &&& forall|k: int|
                            0 <= k < i && tableau_face_up((#[trigger] entries@[k]).1, column)
                                ==> entries@[k].1.display_y <= c.display_y
                    },
                    None => forall|k: int|
                        0 <= k < i ==> !tableau_face_up((#[trigger] entries@[k]).1, column),
                },
            decreases n - i,
        {
            let card = &entries[i].1;
            if card.location_type == CardLocation::Tableau && card.position_in_location == column
                && card.is_face_up {
                match best {
                    Some(b) => {
                        if card.display_y > b.display_y {
                            best = Some(*card);
                        }
                    },
                    None => {
                        best = Some(*card);
                    },
                }
            }
            i += 1;
        }
        proof {
            match best {
                Some(c) => {
                    assert forall|e: Entity|
                        #[trigger] world.component_map::<SolitaireCard>().dom().contains(e)
                            && tableau_face_up(world.component_map::<SolitaireCard>()[e], column)
                            implies world.component_map::<SolitaireCard>()[e].display_y
                        <= c.display_y by {
                        let k = choose|k: int|
                            0 <= k < entries@.len() && (#[trigger] entries@[k]) == (
                            e,
                            world.component_map::<SolitaireCard>()[e],
                            );
                        assert(entries@[k].1 == world.component_map::<SolitaireCard>()[e]);
                    };
                    let k = choose|k: int| 0 <= k < n && (#[trigger] entries@[k]).1 == c;
                    assert(world.component_map::<SolitaireCard>().dom().contains(entries@[k].0));
                },
                None => {
                    assert forall|e: Entity|
                        #[trigger] world.component_map::<SolitaireCard>().dom().contains(e)
                            implies !tableau_face_up(
                        world.component_map::<SolitaireCard>()[e],
                        column,
                    ) by {
                        let k = choose|k: int|
                            0 <= k < entries@.len() && (#[trigger] entries@[k]) == (
                            e,
                            world.component_map::<SolitaireCard>()[e],
                            );
                        assert(entries@[k].1 == world.component_map::<SolitaireCard>()[e]);
                    };
                },
            }
        }
        best
    }

    /// How many cards lie in tableau column `column`.
    pub fn count_tableau_cards<R: Registry>(world: &World<R>, column: u32) -> (n: usize) where
        SolitaireCard: Component<R>

        requires
            world.wf(),
        ensures
            n == spec_tableau_count(world.component_seq::<SolitaireCard>(), column),
    {
        let entries = world.query::<SolitaireCard>();
        let total = entries.len();
        let mut count: usize = 0;
        proof {
            reveal(Seq::filter);
            assert(entries@.take(0).filter(
                |p: (Entity, SolitaireCard)| in_tableau_column(p.1, column),
            ) =~= Seq::<(Entity, SolitaireCard)>::empty());
        }
        let mut i: usize = 0;
        while i < total
            invariant
                total == entries@.len(),
                0 <= i <= total,
                count <= i,
                count == entries@.take(i as int).filter(
                    |p: (Entity, SolitaireCard)| in_tableau_column(p.1, column),
                ).len(),
            decreases total - i,
        {
            proof {
                reveal(Seq::filter);
                assert(entries@.take(i + 1) =~= entries@.take(i as int).push(
                    entries@[i as int],
                ));
                assert(entries@.take(i + 1).drop_last() =~= entries@.take(i as int));
            }
            let card = &entries[i].1;
            if card.location_type == CardLocation::Tableau && card.position_in_location
                == column {
                count += 1;
            }
            i += 1;
        }
        proof {
            assert(entries@.take(total as int) =~= entries@);
        }
        count
    }

    /// Whether the game is won in the classic sense: each of the
    /// four foundation piles is topped by a king.
    pub fn check_windows_solitaire_win<R: Registry>(world: &World<R>) -> (won: bool) where
        SolitaireCard: Component<R>

        requires
            world.wf(),
        ensures
            won == (forall|fi: u32|
                fi < 4 ==> #[trigger] king_on_foundation(
                    world.component_map::<SolitaireCard>(),
                    fi,
                )),
    {
        let mut fi: u32 = 0;
        while fi < 4
            invariant
                world.wf(),
                0 <= fi <= 4,
                forall|f: u32|
                    f < fi ==> #[trigger] king_on_foundation(
                        world.component_map::<SolitaireCard>(),
                        f,
                    ),
            decreases 4 - fi,
        {
            let topped_by_king = match SolitaireManager::get_foundation_top(world, fi) {
                Some(top_card) => top_card.rank == CardRank::King,
                None => false,
            };
            let ghost m = world.component_map::<SolitaireCard>();
            proof {
                if topped_by_king {
                    assert(king_on_foundation(m, fi));
                }
            }
            if !topped_by_king {
                proof {
                    if king_on_foundation(world.component_map::<SolitaireCard>(), fi) {
                        let e = choose|e: Entity|
                            #[trigger] world.component_map::<SolitaireCard>().dom().contains(e)
                                && at_foundation(world.component_map::<SolitaireCard>()[e], fi)
                                && world.component_map::<SolitaireCard>()[e].rank
                                == CardRank::King;
                        assert(world.component_map::<SolitaireCard>()[e].rank.spec_value()
                            == 13);
                    }
                }
                return false;
            }
            fi += 1;
        }
        true
    }
}


impl SolitaireType {
    /// How many pile entities the board of this variant has.
    pub open spec fn spec_stack_count(self) -> u32 {
        match self {
            SolitaireType::Klondike => 11u32,
            SolitaireType::FreeCell => 16u32,
            SolitaireType::Spider => 18u32,
        }
    }
}

impl SolitaireManager {
    /// Starts a new game: creates the game state, builds and
    /// shuffles the deck from `seed`, deals it, and creates the
    /// board's piles.  Returns the game-state entity.
    pub fn start_new_game(
        world: &mut World<crate::registry::GameRegistry>,
        game_type: SolitaireType,
        seed: usize,
        now: u64,
    ) -> (game_entity: Entity)
        requires
            old(world).wf(),
            old(world).next_id() + 123 <= u32::MAX,
        ensures
            final(world).wf(),
            game_entity.0 == old(world).next_id(),
            final(world).next_id() == old(world).next_id() + 1
                + game_type.spec_required_cards() + game_type.spec_stack_count(),
            final(world).entity_seq().len() == old(world).entity_seq().len() + 1
                + game_type.spec_required_cards() + game_type.spec_stack_count(),
            final(world).component_map::<SolitaireGameState>() == old(world).component_map::<
                SolitaireGameState,
            >().insert(game_entity, SolitaireGameState::fresh(game_type, now)),
    {
        let game_entity = world.create_entity();
        let game_state = SolitaireGameState::new(game_type, now);
        world.add_component::<SolitaireGameState>(game_entity, game_state);
        let ghost mid = world.component_map::<SolitaireGameState>();
        let mut cards = SolitaireManager::create_deck(world, game_type, seed);
        SolitaireManager::deal_cards(world, game_type, &mut cards);
        SolitaireManager::create_stacks(world, game_type);
        proof {
            assert(world.component_map::<SolitaireGameState>() == mid);
        }
        game_entity
    }

    /// Builds the variant's deck — one set of 52 cards, or two for
    /// spider — as fresh entities, shuffled from `seed`.  The new
    /// entities extend the roster; all of them carry a face-down
    /// card.
    pub fn create_deck<R: Registry>(
        world: &mut World<R>,
        game_type: SolitaireType,
        seed: usize,
    ) -> (cards: Vec<Entity>) where SolitaireCard: Component<R>
        requires
            old(world).wf(),
            old(world).next_id() + game_type.spec_required_cards() <= u32::MAX,
        ensures
            final(world).wf(),
            cards@.len() == game_type.spec_required_cards(),
            final(world).next_id() == old(world).next_id() + game_type.spec_required_cards(),
            final(world).entity_seq().len() == old(world).entity_seq().len() + cards@.len(),
            final(world).entity_seq().take(old(world).entity_seq().len() as int) == old(world).entity_seq(),
            final(world).registry() == <SolitaireCard as Component<R>>::with_storage(
                old(world).registry(),
                <SolitaireCard as Component<R>>::storage_of(final(world).registry()),
            ),
            distinct_entities(cards@),
            forall|k: int|
                0 <= k < cards@.len() ==> final(world).component_map::<
                    SolitaireCard,
                >().dom().contains(#[trigger] cards@[k]) && final(world).component_map::<
                    SolitaireCard,
                >()[cards@[k]].location_type == CardLocation::Deck && !final(world).component_map::<SolitaireCard>()[cards@[k]].is_face_up,
    {
        let ghost r0 = old(world).registry();
        let ghost base = old(world).entity_seq();
        proof {
            <SolitaireCard as Component<R>>::lemma_with_storage_self(r0);
        }
        let deck_count: usize = match game_type {
            SolitaireType::Spider => 2,
            _ => 1,
        };
        let total: usize = deck_count * 52;
        let suits = CardSuit::all();
        let ranks = CardRank::all();
        let mut cards: Vec<Entity> = Vec::new();
        let mut k: usize = 0;
        while k < total
            invariant
                total == game_type.spec_required_cards(),
                suits@.len() == 4,
                ranks@.len() == 13,
                0 <= k <= total,
                cards@.len() == k,
                world.wf(),
                world.next_id() == old(world).next_id() + k,
                old(world).next_id() + total <= u32::MAX,
                world.entity_seq() == base + cards@,
                world.registry() == <SolitaireCard as Component<R>>::with_storage(
                    r0,
                    <SolitaireCard as Component<R>>::storage_of(world.registry()),
                ),
                forall|q: int| 0 <= q < k ==> (#[trigger] cards@[q]).0 == old(world).next_id() + q,
                forall|q: int|
                    0 <= q < k ==> world.component_map::<SolitaireCard>().dom().contains(
                        #[trigger] cards@[q],
                    ) && world.component_map::<SolitaireCard>()[cards@[q]].location_type
                        == CardLocation::Deck && !world.component_map::<
                        SolitaireCard,
                    >()[cards@[q]].is_face_up,
            decreases total - k,
        {
            let ghost r_mid = world.registry();
            let card_entity = world.create_entity();
            let card = SolitaireCard::new(suits[(k / 13) % 4], ranks[k % 13]);
            world.add_component::<SolitaireCard>(card_entity, card);
            cards.push(card_entity);
            proof {
                <SolitaireCard as Component<R>>::lemma_with_storage_twice(
                    r0,
                    <SolitaireCard as Component<R>>::storage_of(r_mid),
                    <SolitaireCard as Component<R>>::storage_of(world.registry()),
                );
                assert(world.entity_seq() =~= base + cards@);
            }
            k += 1;
        }
        proof {
            assert(cards@.no_duplicates());
            cards@.lemma_multiset_has_no_duplicates();
        }
        let ghost pre_shuffle = cards@;
        SolitaireManager::shuffle_cards(&mut cards, seed);
        proof {
            broadcast use vstd::seq_lib::group_to_multiset_ensures;

            cards@.lemma_multiset_has_no_duplicates_conv();
            assert(cards@.no_duplicates());
            assert(distinct_entities(cards@));
            assert((base + pre_shuffle).take(base.len() as int) =~= base);
            assert forall|q: int|
                0 <= q < cards@.len() implies world.component_map::<
                SolitaireCard,
            >().dom().contains(#[trigger] cards@[q]) && world.component_map::<
                SolitaireCard,
            >()[cards@[q]].location_type == CardLocation::Deck && !world.component_map::<
                SolitaireCard,
            >()[cards@[q]].is_face_up by {
                assert(cards@.to_multiset().count(cards@[q]) > 0);
                let ghost pre = cards@;
                assert(pre.contains(pre[q]));
            }
        }
        cards
    }

    /// Deals the shuffled deck for the chosen variant.
    pub fn deal_cards<R: Registry>(
        world: &mut World<R>,
        game_type: SolitaireType,
        cards: &mut Vec<Entity>,
    ) where SolitaireCard: Component<R>
        requires
            old(world).wf(),
            old(cards)@.len() <= 104,
        ensures
            final(world).wf(),
            final(cards)@ == old(cards)@,
            final(world).next_id() == old(world).next_id(),
            final(world).entity_seq() == old(world).entity_seq(),
            final(world).registry() == <SolitaireCard as Component<R>>::with_storage(
                old(world).registry(),
                <SolitaireCard as Component<R>>::storage_of(final(world).registry()),
            ),
            final(world).component_map::<SolitaireCard>().dom() == old(world).component_map::<
                SolitaireCard,
            >().dom(),
            forall|e: Entity|
                #[trigger] old(world).component_map::<SolitaireCard>().dom().contains(e)
                    && !old(cards)@.contains(e) ==> final(world).component_map::<
                    SolitaireCard,
                >()[e] == old(world).component_map::<SolitaireCard>()[e],
            distinct_entities(old(cards)@) ==> forall|k: int|
                0 <= k < old(cards)@.len() && #[trigger] old(world).component_map::<
                    SolitaireCard,
                >().dom().contains(old(cards)@[k]) ==> match game_type {
                    SolitaireType::Klondike => klondike_dealt(
                        final(world).component_map::<SolitaireCard>(),
                        old(cards)@,
                        k,
                    ),
                    SolitaireType::FreeCell => freecell_dealt(
                        final(world).component_map::<SolitaireCard>(),
                        old(cards)@,
                        k,
                    ),
                    SolitaireType::Spider => spider_dealt(
                        final(world).component_map::<SolitaireCard>(),
                        old(cards)@,
                        k,
                    ),
                },
    {
        match game_type {
            SolitaireType::Klondike => {
                SolitaireManager::deal_klondike(world, cards);
            },
            SolitaireType::FreeCell => {
                SolitaireManager::deal_freecell(world, cards);
            },
            SolitaireType::Spider => {
                SolitaireManager::deal_spider(world, cards);
            },
        }
    }
}


/// No entity is listed twice.
pub open spec fn distinct_entities(s: Seq<Entity>) -> bool {
    forall|i: int, j: int| 0 <= i < j < s.len() ==> (#[trigger] s[i]) != (#[trigger] s[j])
}

/// Which tableau column the `k`-th dealt card of the classic
/// layout lands in: column `c` takes cards `c * (c + 1) / 2`
/// through `c * (c + 1) / 2 + c`.
pub open spec fn klondike_column_of(k: int) -> u32 {
    if k < 1 {
        0u32
    } else if k < 3 {
        1u32
    } else if k < 6 {
        2u32
    } else if k < 10 {
        3u32
    } else if k < 15 {
        4u32
    } else if k < 21 {
        5u32
    } else {
        6u32
    }
}

/// Whether the `k`-th dealt card of the classic layout lies face
/// up: exactly the last card of each column.
pub open spec fn klondike_face_up(k: int) -> bool {
    k == 0 || k == 2 || k == 5 || k == 9 || k == 14 || k == 20 || k == 27
}

/// The index of the first card dealt into tableau column `c` of
/// the classic layout.
pub open spec fn klondike_start(c: int) -> int {
    if c <= 0 {
        0
    } else if c == 1 {
        1
    } else if c == 2 {
        3
    } else if c == 3 {
        6
    } else if c == 4 {
        10
    } else if c == 5 {
        15
    } else if c == 6 {
        21
    } else {
        28
    }
}

/// Where dealing the classic layout leaves the `k`-th card of the
/// deck list.
pub open spec fn klondike_dealt(m: Map<Entity, SolitaireCard>, cards: Seq<Entity>, k: int) -> bool {
    if k < 28 {
        in_tableau_column(m[cards[k]], klondike_column_of(k)) && m[cards[k]].is_face_up
            == klondike_face_up(k)
    } else {
        m[cards[k]].location_type == CardLocation::Deck && !m[cards[k]].is_face_up
            && m[cards[k]].position_in_location == k - 28
    }
}

/// Where dealing the free-cell layout leaves the `k`-th card of
/// the deck list: face up in tableau column `k` modulo eight.
pub open spec fn freecell_dealt(m: Map<Entity, SolitaireCard>, cards: Seq<Entity>, k: int) -> bool {
    in_tableau_column(m[cards[k]], (k % 8) as u32) && m[cards[k]].is_face_up
}

/// The index of the first card dealt into tableau column `c` of the
/// spider layout: the first four columns take six cards each, the
/// rest five.
pub open spec fn spider_start(c: int) -> int {
    if c <= 3 {
        6 * c
    } else if c <= 9 {
        5 * c + 4
    } else {
        54
    }
}

/// Which tableau column the `k`-th dealt card of the spider layout
/// lands in.
pub open spec fn spider_column_of(k: int) -> u32 {
    if k < 6 {
        0u32
    } else if k < 12 {
        1u32
    } else if k < 18 {
        2u32
    } else if k < 24 {
        3u32
    } else if k < 29 {
        4u32
    } else if k < 34 {
        5u32
    } else if k < 39 {
        6u32
    } else if k < 44 {
        7u32
    } else if k < 49 {
        8u32
    } else {
        9u32
    }
}

/// Whether the `k`-th dealt card of the spider layout lies face up:
/// exactly the last card of each column.
pub open spec fn spider_face_up(k: int) -> bool {
    k == 5 || k == 11 || k == 17 || k == 23 || k == 28 || k == 33 || k == 38 || k == 43 || k == 48
        || k == 53
}

/// Where dealing the spider layout leaves the `k`-th card of the
/// deck list.  Only each column's last card is turned over; the
/// others keep the face they had.
pub open spec fn spider_dealt(m: Map<Entity, SolitaireCard>, cards: Seq<Entity>, k: int) -> bool {
    if k < 54 {
        in_tableau_column(m[cards[k]], spider_column_of(k)) && (spider_face_up(k)
            ==> m[cards[k]].is_face_up)
    } else {
        m[cards[k]].location_type == CardLocation::Deck && m[cards[k]].position_in_location == 0
    }
}

impl SolitaireManager {
    /// Deals the classic layout: seven tableau columns of one to
    /// seven cards, only each column's last card face up, and the
    /// rest of the deck face down on the draw pile.
    fn deal_klondike<R: Registry>(world: &mut World<R>, cards: &Vec<Entity>) where
        SolitaireCard: Component<R>

        requires
            old(world).wf(),
            cards@.len() <= 104,
        ensures
            final(world).wf(),
            final(world).next_id() == old(world).next_id(),
            final(world).entity_seq() == old(world).entity_seq(),
            final(world).registry() == <SolitaireCard as Component<R>>::with_storage(
                old(world).registry(),
                <SolitaireCard as Component<R>>::storage_of(final(world).registry()),
            ),
            final(world).component_map::<SolitaireCard>().dom() == old(world).component_map::<
                SolitaireCard,
            >().dom(),
            forall|e: Entity|
                #[trigger] old(world).component_map::<SolitaireCard>().dom().contains(e)
                    && !cards@.contains(e) ==> final(world).component_map::<SolitaireCard>()[e]
                    == old(world).component_map::<SolitaireCard>()[e],
            distinct_entities(cards@) ==> forall|k: int|
                0 <= k < cards@.len() && #[trigger] old(world).component_map::<
                    SolitaireCard,
                >().dom().contains(cards@[k]) ==> klondike_dealt(
                    final(world).component_map::<SolitaireCard>(),
                    cards@,
                    k,
                ),
    {
        let ghost r0 = old(world).registry();
        let ghost m0 = old(world).component_map::<SolitaireCard>();
        let ghost dom0 = old(world).component_map::<SolitaireCard>().dom();
        proof {
            <SolitaireCard as Component<R>>::lemma_with_storage_self(r0);
        }
        let mut card_index: usize = 0;
        let mut column: u32 = 0;
        while column < 7
            invariant
                cards@.len() <= 104,
                0 <= column <= 7,
                card_index <= cards@.len(),
                card_index == (if klondike_start(column as int) <= cards@.len() {
                    klondike_start(column as int)
                } else {
                    cards@.len() as int
                }),
                world.wf(),
                world.next_id() == old(world).next_id(),
                world.entity_seq() == old(world).entity_seq(),
                world.registry() == <SolitaireCard as Component<R>>::with_storage(
                    r0,
                    <SolitaireCard as Component<R>>::storage_of(world.registry()),
                ),
                m0 == old(world).component_map::<SolitaireCard>(),
                world.component_map::<SolitaireCard>().dom() == dom0,
                forall|e: Entity|
                    #[trigger] dom0.contains(e) && !cards@.contains(e)
                        ==> world.component_map::<SolitaireCard>()[e] == m0[e],
                distinct_entities(cards@) ==> forall|k: int|
                    0 <= k < card_index && #[trigger] dom0.contains(cards@[k])
                        ==> klondike_dealt(world.component_map::<SolitaireCard>(), cards@, k),
            decreases 7 - column,
        {
            let mut row: u32 = 0;
            while row <= column && card_index < cards.len()
                invariant
                    cards@.len() <= 104,
                    0 <= column < 7,
                    0 <= row <= column + 1,
                    card_index <= cards@.len(),
                    card_index == (if klondike_start(column as int) + row <= cards@.len() {
                        klondike_start(column as int) + row
                    } else {
                        cards@.len() as int
                    }),
                    world.wf(),
                    world.next_id() == old(world).next_id(),
                    world.entity_seq() == old(world).entity_seq(),
                    world.registry() == <SolitaireCard as Component<R>>::with_storage(
                        r0,
                        <SolitaireCard as Component<R>>::storage_of(world.registry()),
                    ),
                    m0 == old(world).component_map::<SolitaireCard>(),
                    world.component_map::<SolitaireCard>().dom() == dom0,
                    forall|e: Entity|
                        #[trigger] dom0.contains(e) && !cards@.contains(e)
                            ==> world.component_map::<SolitaireCard>()[e] == m0[e],
                    distinct_entities(cards@) ==> forall|k: int|
                        0 <= k < card_index && #[trigger] dom0.contains(cards@[k])
                            ==> klondike_dealt(world.component_map::<SolitaireCard>(), cards@, k),
                decreases column + 1 - row,
            {
                let ghost r_mid = world.registry();
                let ghost m_mid = world.component_map::<SolitaireCard>();
                let card_entity = cards[card_index];
                match world.get_component_mut::<SolitaireCard>(card_entity) {
                    Some(card) => {
                        card.set_location(CardLocation::Tableau, column);
                        let base_x: i32 = 20 + (column as i32) * 100;
                        let base_y: i32 = 150 + (row as i32) * 25;
                        card.set_display_position(base_x, base_y);
                        if row == column {
                            card.flip_up();
                            card.is_movable = true;
                        } else {
                            card.flip_down();
                            card.is_movable = false;
                        }
                    },
                    None => {},
                }
                proof {
                    <SolitaireCard as Component<R>>::lemma_with_storage_twice(
                        r0,
                        <SolitaireCard as Component<R>>::storage_of(r_mid),
                        <SolitaireCard as Component<R>>::storage_of(world.registry()),
                    );
                    assert(world.component_map::<SolitaireCard>().dom() =~= dom0);
                    assert(cards@.contains(cards@[card_index as int]));
                    assert(klondike_column_of(card_index as int) == column);
                    assert(klondike_face_up(card_index as int) == (row == column));
                    if distinct_entities(cards@) {
                        assert forall|k: int|
                            0 <= k < card_index + 1 && #[trigger] dom0.contains(cards@[k])
                                implies klondike_dealt(
                            world.component_map::<SolitaireCard>(),
                            cards@,
                            k,
                        ) by {
                            if k < card_index {
                                assert(cards@[k] != cards@[card_index as int]);
                                assert(klondike_dealt(m_mid, cards@, k));
                            }
                        }
                    }
                }
                card_index += 1;
                row += 1;
            }
            proof {
                assert(klondike_start(column as int) + column + 1 == klondike_start(
                    column as int + 1,
                ));
            }
            column += 1;
        }
        let total = cards.len();
        let deal_end = card_index;
        let mut i: usize = card_index;
        while i < total
            invariant
                total == cards@.len(),
                cards@.len() <= 104,
                deal_end <= i <= total,
                deal_end == (if cards@.len() < 28 {
                    cards@.len() as int
                } else {
                    28
                }),
                world.wf(),
                world.next_id() == old(world).next_id(),
                world.entity_seq() == old(world).entity_seq(),
                world.registry() == <SolitaireCard as Component<R>>::with_storage(
                    r0,
                    <SolitaireCard as Component<R>>::storage_of(world.registry()),
                ),
                m0 == old(world).component_map::<SolitaireCard>(),
                world.component_map::<SolitaireCard>().dom() == dom0,
                forall|e: Entity|
                    #[trigger] dom0.contains(e) && !cards@.contains(e)
                        ==> world.component_map::<SolitaireCard>()[e] == m0[e],
                distinct_entities(cards@) ==> forall|k: int|
                    0 <= k < i && #[trigger] dom0.contains(cards@[k]) ==> klondike_dealt(
                        world.component_map::<SolitaireCard>(),
                        cards@,
                        k,
                    ),
            decreases total - i,
        {
            let ghost r_mid = world.registry();
            let ghost m_mid = world.component_map::<SolitaireCard>();
            let card_entity = cards[i];
            match world.get_component_mut::<SolitaireCard>(card_entity) {
                Some(card) => {
                    card.set_location(CardLocation::Deck, (i - deal_end) as u32);
                    card.set_display_position(20, 20);
                    card.flip_down();
                    card.is_movable = false;
                },
                None => {},
            }
            proof {
                <SolitaireCard as Component<R>>::lemma_with_storage_twice(
                    r0,
                    <SolitaireCard as Component<R>>::storage_of(r_mid),
                    <SolitaireCard as Component<R>>::storage_of(world.registry()),
                );
                assert(world.component_map::<SolitaireCard>().dom() =~= dom0);
                assert(cards@.contains(cards@[i as int]));
                if distinct_entities(cards@) {
                    assert forall|k: int|
                        0 <= k < i + 1 && #[trigger] dom0.contains(cards@[k])
                            implies klondike_dealt(
                        world.component_map::<SolitaireCard>(),
                        cards@,
                        k,
                    ) by {
                        if k < i {
                            assert(cards@[k] != cards@[i as int]);
                            assert(klondike_dealt(m_mid, cards@, k));
                        }
                    }
                }
            }
            i += 1;
        }
    }

    /// Deals the free-cell layout: all cards face up over eight
    /// tableau columns.
    fn deal_freecell<R: Registry>(world: &mut World<R>, cards: &Vec<Entity>) where
        SolitaireCard: Component<R>

        requires
            old(world).wf(),
            cards@.len() <= 104,
        ensures
            final(world).wf(),
            final(world).next_id() == old(world).next_id(),
            final(world).entity_seq() == old(world).entity_seq(),
            final(world).registry() == <SolitaireCard as Component<R>>::with_storage(
                old(world).registry(),
                <SolitaireCard as Component<R>>::storage_of(final(world).registry()),
            ),
            final(world).component_map::<SolitaireCard>().dom() == old(world).component_map::<
                SolitaireCard,
            >().dom(),
            forall|e: Entity|
                #[trigger] old(world).component_map::<SolitaireCard>().dom().contains(e)
                    && !cards@.contains(e) ==> final(world).component_map::<SolitaireCard>()[e]
                    == old(world).component_map::<SolitaireCard>()[e],
            distinct_entities(cards@) ==> forall|k: int|
                0 <= k < cards@.len() && #[trigger] old(world).component_map::<
                    SolitaireCard,
                >().dom().contains(cards@[k]) ==> freecell_dealt(
                    final(world).component_map::<SolitaireCard>(),
                    cards@,
                    k,
                ),
    {
        let ghost r0 = old(world).registry();
        let ghost m0 = old(world).component_map::<SolitaireCard>();
        let ghost dom0 = old(world).component_map::<SolitaireCard>().dom();
        proof {
            <SolitaireCard as Component<R>>::lemma_with_storage_self(r0);
        }
        let total = cards.len();
        let mut i: usize = 0;
        while i < total
            invariant
                total == cards@.len(),
                cards@.len() <= 104,
                0 <= i <= total,
                world.wf(),
                world.next_id() == old(world).next_id(),
                world.entity_seq() == old(world).entity_seq(),
                world.registry() == <SolitaireCard as Component<R>>::with_storage(
                    r0,
                    <SolitaireCard as Component<R>>::storage_of(world.registry()),
                ),
                m0 == old(world).component_map::<SolitaireCard>(),
                world.component_map::<SolitaireCard>().dom() == dom0,
                forall|e: Entity|
                    #[trigger] dom0.contains(e) && !cards@.contains(e)
                        ==> world.component_map::<SolitaireCard>()[e] == m0[e],
                distinct_entities(cards@) ==> forall|k: int|
                    0 <= k < i && #[trigger] dom0.contains(cards@[k]) ==> freecell_dealt(
                        world.component_map::<SolitaireCard>(),
                        cards@,
                        k,
                    ),
            decreases total - i,
        {
            let ghost r_mid = world.registry();
            let ghost m_mid = world.component_map::<SolitaireCard>();
            let column = i % 8;
            let row = i / 8;
            match world.get_component_mut::<SolitaireCard>(cards[i]) {
                Some(card) => {
                    card.set_location(CardLocation::Tableau, column as u32);
                    card.set_display_position(
                        50 + (column as i32) * 100,
                        200 + (row as i32) * 20,
                    );
                    card.flip_up();
                },
                None => {},
            }
            proof {
                <SolitaireCard as Component<R>>::lemma_with_storage_twice(
                    r0,
                    <SolitaireCard as Component<R>>::storage_of(r_mid),
                    <SolitaireCard as Component<R>>::storage_of(world.registry()),
                );
                assert(world.component_map::<SolitaireCard>().dom() =~= dom0);
                assert(cards@.contains(cards@[i as int]));
                if distinct_entities(cards@) {
                    assert forall|k: int|
                        0 <= k < i + 1 && #[trigger] dom0.contains(cards@[k])
                            implies freecell_dealt(
                        world.component_map::<SolitaireCard>(),
                        cards@,
                        k,
                    ) by {
                        if k < i {
                            assert(cards@[k] != cards@[i as int]);
                            assert(freecell_dealt(m_mid, cards@, k));
                        }
                    }
                }
            }
            i += 1;
        }
    }

    /// Deals the spider layout: ten tableau columns of six or five
    /// cards, only each column's last card face up, and the rest on
    /// the draw pile.
    fn deal_spider<R: Registry>(world: &mut World<R>, cards: &Vec<Entity>) where
        SolitaireCard: Component<R>

        requires
            old(world).wf(),
            cards@.len() <= 104,
        ensures
            final(world).wf(),
            final(world).next_id() == old(world).next_id(),
            final(world).entity_seq() == old(world).entity_seq(),
            final(world).registry() == <SolitaireCard as Component<R>>::with_storage(
                old(world).registry(),
                <SolitaireCard as Component<R>>::storage_of(final(world).registry()),
            ),
            final(world).component_map::<SolitaireCard>().dom() == old(world).component_map::<
                SolitaireCard,
            >().dom(),
            forall|e: Entity|
                #[trigger] old(world).component_map::<SolitaireCard>().dom().contains(e)
                    && !cards@.contains(e) ==> final(world).component_map::<SolitaireCard>()[e]
                    == old(world).component_map::<SolitaireCard>()[e],
            distinct_entities(cards@) ==> forall|k: int|
                0 <= k < cards@.len() && #[trigger] old(world).component_map::<
                    SolitaireCard,
                >().dom().contains(cards@[k]) ==> spider_dealt(
                    final(world).component_map::<SolitaireCard>(),
                    cards@,
                    k,
                ),
    {
        let ghost r0 = old(world).registry();
        let ghost m0 = old(world).component_map::<SolitaireCard>();
        let ghost dom0 = old(world).component_map::<SolitaireCard>().dom();
        proof {
            <SolitaireCard as Component<R>>::lemma_with_storage_self(r0);
        }
        let mut card_index: usize = 0;
        let mut column: u32 = 0;
        while column < 10
            invariant
                cards@.len() <= 104,
                0 <= column <= 10,
                card_index <= cards@.len(),
                card_index == (if spider_start(column as int) <= cards@.len() {
                    spider_start(column as int)
                } else {
                    cards@.len() as int
                }),
                world.wf(),
                world.next_id() == old(world).next_id(),
                world.entity_seq() == old(world).entity_seq(),
                world.registry() == <SolitaireCard as Component<R>>::with_storage(
                    r0,
                    <SolitaireCard as Component<R>>::storage_of(world.registry()),
                ),
                m0 == old(world).component_map::<SolitaireCard>(),
                world.component_map::<SolitaireCard>().dom() == dom0,
                forall|e: Entity|
                    #[trigger] dom0.contains(e) && !cards@.contains(e)
                        ==> world.component_map::<SolitaireCard>()[e] == m0[e],
                distinct_entities(cards@) ==> forall|k: int|
                    0 <= k < card_index && #[trigger] dom0.contains(cards@[k]) ==> spider_dealt(
                        world.component_map::<SolitaireCard>(),
                        cards@,
                        k,
                    ),
            decreases 10 - column,
        {
            let cards_in_column: u32 = if column < 4 {
                6
            } else {
                5
            };
            let mut row: u32 = 0;
            while row < cards_in_column && card_index < cards.len()
                invariant
                    cards@.len() <= 104,
                    0 <= column < 10,
                    cards_in_column == (if column < 4 {
                        6u32
                    } else {
                        5u32
                    }),
                    0 <= row <= cards_in_column,
                    card_index <= cards@.len(),
                    card_index == (if spider_start(column as int) + row <= cards@.len() {
                        spider_start(column as int) + row
                    } else {
                        cards@.len() as int
                    }),
                    world.wf(),
                    world.next_id() == old(world).next_id(),
                    world.entity_seq() == old(world).entity_seq(),
                    world.registry() == <SolitaireCard as Component<R>>::with_storage(
                        r0,
                        <SolitaireCard as Component<R>>::storage_of(world.registry()),
                    ),
                    m0 == old(world).component_map::<SolitaireCard>(),
                    world.component_map::<SolitaireCard>().dom() == dom0,
                    forall|e: Entity|
                        #[trigger] dom0.contains(e) && !cards@.contains(e)
                            ==> world.component_map::<SolitaireCard>()[e] == m0[e],
                    distinct_entities(cards@) ==> forall|k: int|
                        0 <= k < card_index && #[trigger] dom0.contains(cards@[k])
                            ==> spider_dealt(world.component_map::<SolitaireCard>(), cards@, k),
                decreases cards_in_column - row,
            {
                let ghost r_mid = world.registry();
                let ghost m_mid = world.component_map::<SolitaireCard>();
                match world.get_component_mut::<SolitaireCard>(cards[card_index]) {
                    Some(card) => {
                        card.set_location(CardLocation::Tableau, column);
                        card.set_display_position(
                            50 + (column as i32) * 80,
                            200 + (row as i32) * 15,
                        );
                        if row == cards_in_column - 1 {
                            card.flip_up();
                        }
                    },
                    None => {},
                }
                proof {
                    <SolitaireCard as Component<R>>::lemma_with_storage_twice(
                        r0,
                        <SolitaireCard as Component<R>>::storage_of(r_mid),
                        <SolitaireCard as Component<R>>::storage_of(world.registry()),
                    );
                    assert(world.component_map::<SolitaireCard>().dom() =~= dom0);
                    assert(cards@.contains(cards@[card_index as int]));
                    assert(spider_column_of(card_index as int) == column);
                    assert(spider_face_up(card_index as int) ==> row == cards_in_column - 1);
                    if distinct_entities(cards@) {
                        assert forall|k: int|
                            0 <= k < card_index + 1 && #[trigger] dom0.contains(cards@[k])
                                implies spider_dealt(
                            world.component_map::<SolitaireCard>(),
                            cards@,
                            k,
                        ) by {
                            if k < card_index {
                                assert(cards@[k] != cards@[card_index as int]);
                                assert(spider_dealt(m_mid, cards@, k));
                            }
                        }
                    }
                }
                card_index += 1;
                row += 1;
            }
            proof {
                assert(spider_start(column as int) + cards_in_column == spider_start(
                    column as int + 1,
                ));
            }
            column += 1;
        }
        let total = cards.len();
        let ghost deal_end = card_index as int;
        let mut i: usize = card_index;
        while i < total
            invariant
                total == cards@.len(),
                cards@.len() <= 104,
                deal_end <= i <= total,
                deal_end == (if cards@.len() < 54 {
                    cards@.len() as int
                } else {
                    54
                }),
                world.wf(),
                world.next_id() == old(world).next_id(),
                world.entity_seq() == old(world).entity_seq(),
                world.registry() == <SolitaireCard as Component<R>>::with_storage(
                    r0,
                    <SolitaireCard as Component<R>>::storage_of(world.registry()),
                ),
                m0 == old(world).component_map::<SolitaireCard>(),
                world.component_map::<SolitaireCard>().dom() == dom0,
                forall|e: Entity|
                    #[trigger] dom0.contains(e) && !cards@.contains(e)
                        ==> world.component_map::<SolitaireCard>()[e] == m0[e],
                distinct_entities(cards@) ==> forall|k: int|
                    0 <= k < i && #[trigger] dom0.contains(cards@[k]) ==> spider_dealt(
                        world.component_map::<SolitaireCard>(),
                        cards@,
                        k,
                    ),
            decreases total - i,
        {
            let ghost r_mid = world.registry();
            let ghost m_mid = world.component_map::<SolitaireCard>();
            match world.get_component_mut::<SolitaireCard>(cards[i]) {
                Some(card) => {
                    card.set_location(CardLocation::Deck, 0);
                    card.set_display_position(50, 100);
                },
                None => {},
            }
            proof {
                <SolitaireCard as Component<R>>::lemma_with_storage_twice(
                    r0,
                    <SolitaireCard as Component<R>>::storage_of(r_mid),
                    <SolitaireCard as Component<R>>::storage_of(world.registry()),
                );
                assert(world.component_map::<SolitaireCard>().dom() =~= dom0);
                assert(cards@.contains(cards@[i as int]));
                if distinct_entities(cards@) {
                    assert forall|k: int|
                        0 <= k < i + 1 && #[trigger] dom0.contains(cards@[k])
                            implies spider_dealt(
                        world.component_map::<SolitaireCard>(),
                        cards@,
                        k,
                    ) by {
                        if k < i {
                            assert(cards@[k] != cards@[i as int]);
                            assert(spider_dealt(m_mid, cards@, k));
                        }
                    }
                }
            }
            i += 1;
        }
    }

    /// Creates the board's pile entities for the chosen variant:
    /// tableau columns and foundations, plus free cells for
    /// free-cell games.
    pub fn create_stacks<R: Registry>(world: &mut World<R>, game_type: SolitaireType) where
        CardStack: Component<R>

        requires
            old(world).wf(),
            old(world).next_id() + game_type.spec_stack_count() <= u32::MAX,
        ensures
            final(world).wf(),
            final(world).next_id() == old(world).next_id() + game_type.spec_stack_count(),
            final(world).entity_seq().len() == old(world).entity_seq().len()
                + game_type.spec_stack_count(),
            final(world).entity_seq().take(old(world).entity_seq().len() as int) == old(world).entity_seq(),
            final(world).registry() == <CardStack as Component<R>>::with_storage(
                old(world).registry(),
                <CardStack as Component<R>>::storage_of(final(world).registry()),
            ),
    {
        let ghost r0 = old(world).registry();
        let ghost base = old(world).entity_seq();
        proof {
            <CardStack as Component<R>>::lemma_with_storage_self(r0);
        }
        match game_type {
            SolitaireType::Klondike => {
                SolitaireManager::create_stack_row(world, CardLocation::Tableau, 7, 100, 120, 200);
                let ghost g1 = world.registry();
                SolitaireManager::create_stack_row(world, CardLocation::Foundation, 4, 400, 120, 50);
                proof {
                    <CardStack as Component<R>>::lemma_with_storage_twice(
                        r0,
                        <CardStack as Component<R>>::storage_of(g1),
                        <CardStack as Component<R>>::storage_of(world.registry()),
                    );
                }
            },
            SolitaireType::FreeCell => {
                SolitaireManager::create_stack_row(world, CardLocation::Tableau, 8, 50, 100, 200);
                let ghost g1 = world.registry();
                SolitaireManager::create_stack_row(world, CardLocation::FreeCell, 4, 50, 100, 50);
                proof {
                    <CardStack as Component<R>>::lemma_with_storage_twice(
                        r0,
                        <CardStack as Component<R>>::storage_of(g1),
                        <CardStack as Component<R>>::storage_of(world.registry()),
                    );
                }
                let ghost g2 = world.registry();
                SolitaireManager::create_stack_row(world, CardLocation::Foundation, 4, 450, 100, 50);
                proof {
                    <CardStack as Component<R>>::lemma_with_storage_twice(
                        r0,
                        <CardStack as Component<R>>::storage_of(g2),
                        <CardStack as Component<R>>::storage_of(world.registry()),
                    );
                }
            },
            SolitaireType::Spider => {
                SolitaireManager::create_stack_row(world, CardLocation::Tableau, 10, 50, 80, 200);
                let ghost g1 = world.registry();
                SolitaireManager::create_stack_row(world, CardLocation::Foundation, 8, 50, 80, 50);
                proof {
                    <CardStack as Component<R>>::lemma_with_storage_twice(
                        r0,
                        <CardStack as Component<R>>::storage_of(g1),
                        <CardStack as Component<R>>::storage_of(world.registry()),
                    );
                }
            },
        }
        proof {
            assert(final(world).entity_seq().take(base.len() as int) =~= base);
        }
    }

    /// Creates `count` piles of one kind in a row: pile `i` sits at
    /// `start_x + i * step_x`, all at height `y`.
    fn create_stack_row<R: Registry>(
        world: &mut World<R>,
        stack_type: CardLocation,
        count: u32,
        start_x: i32,
        step_x: i32,
        y: i32,
    ) where CardStack: Component<R>
        requires
            old(world).wf(),
            old(world).next_id() + count <= u32::MAX,
            count <= 10,
            0 <= start_x <= 1000,
            0 <= step_x <= 200,
        ensures
            final(world).wf(),
            final(world).next_id() == old(world).next_id() + count,
            final(world).entity_seq().len() == old(world).entity_seq().len() + count,
            final(world).entity_seq().take(old(world).entity_seq().len() as int) == old(world).entity_seq(),
            final(world).registry() == <CardStack as Component<R>>::with_storage(
                old(world).registry(),
                <CardStack as Component<R>>::storage_of(final(world).registry()),
            ),
    {
        let ghost r0 = old(world).registry();
        let ghost base = old(world).entity_seq();
        proof {
            <CardStack as Component<R>>::lemma_with_storage_self(r0);
        }
        let mut i: u32 = 0;
        while i < count
            invariant
                count <= 10,
                0 <= start_x <= 1000,
                0 <= step_x <= 200,
                0 <= i <= count,
                world.wf(),
                world.next_id() == old(world).next_id() + i,
                old(world).next_id() + count <= u32::MAX,
                world.entity_seq().len() == old(world).entity_seq().len() + i,
                world.entity_seq().take(old(world).entity_seq().len() as int) == old(world).entity_seq(),
                world.registry() == <CardStack as Component<R>>::with_storage(
                    r0,
                    <CardStack as Component<R>>::storage_of(world.registry()),
                ),
            decreases count - i,
        {
            let ghost r_mid = world.registry();
            let ghost roster_mid = world.entity_seq();
            proof {
                assert(0 <= (i as int) * (step_x as int) <= 2000) by (nonlinear_arith)
                    requires
                        0 <= i <= 10,
                        0 <= step_x <= 200,
                ;
            }
            let stack_entity = world.create_entity();
            let stack = CardStack::new(stack_type, i, start_x + (i as i32) * step_x, y);
            world.add_component::<CardStack>(stack_entity, stack);
            proof {
                <CardStack as Component<R>>::lemma_with_storage_twice(
                    r0,
                    <CardStack as Component<R>>::storage_of(r_mid),
                    <CardStack as Component<R>>::storage_of(world.registry()),
                );
                assert(world.entity_seq().take(old(world).entity_seq().len() as int)
                    =~= roster_mid.take(old(world).entity_seq().len() as int));
            }
            i += 1;
        }
    }
}


/// The card was turned face up onto the waste pile; everything but
/// its placement is as before.
pub open spec fn drawn_to_waste(before: SolitaireCard, after: SolitaireCard) -> bool {
    after == (SolitaireCard {
        location_type: CardLocation::Waste,
        position_in_location: 0u32,
        display_x: 140i32,
        display_y: 20i32,
        is_face_up: true,
        is_movable: true,
        ..before
    })
}

/// The card was turned face down back onto the draw pile (at some
/// position in it); everything but its placement is as before.
pub open spec fn returned_to_deck(before: SolitaireCard, after: SolitaireCard) -> bool {
    after == (SolitaireCard {
        location_type: CardLocation::Deck,
        position_in_location: after.position_in_location,
        display_x: 20i32,
        display_y: 20i32,
        is_face_up: false,
        is_movable: false,
        is_selected: false,
        ..before
    })
}

/// Every waste card went back to the draw pile, and every other
/// card is untouched.
pub open spec fn waste_recycled(
    before: Map<Entity, SolitaireCard>,
    after: Map<Entity, SolitaireCard>,
) -> bool {
    forall|e: Entity|
        #[trigger] before.dom().contains(e) ==> if before[e].location_type
            == CardLocation::Waste {
            returned_to_deck(before[e], after[e])
        } else {
            after[e] == before[e]
        }
}

/// The card on `card_entity` was moved to a spot that admitted it:
/// onto a foundation pile whose top allowed the card by the
/// foundation rule, or onto a tableau column whose top allowed it
/// by the tableau rule (an empty column only for a king).  Nothing
/// else changed.
pub open spec fn auto_placement(
    m_before: Map<Entity, SolitaireCard>,
    m_after: Map<Entity, SolitaireCard>,
    card_entity: Entity,
) -> bool {
    exists|c: SolitaireCard, top: Option<SolitaireCard>|
        #![trigger foundation_top_spec(m_before, c.position_in_location, top)]
        #![trigger tableau_top_spec(m_before, c.position_in_location, top)]
        {
            &&& c.suit == m_before[card_entity].suit
            &&& c.rank == m_before[card_entity].rank
            &&& m_after == m_before.insert(card_entity, c)
            &&& if c.location_type == CardLocation::Foundation {
                &&& c.position_in_location < 4
                &&& foundation_top_spec(m_before, c.position_in_location, top)
                &&& m_before[card_entity].spec_can_place_on_foundation(top)
            } else {
                &&& c.location_type == CardLocation::Tableau
                &&& c.position_in_location < 7
                &&& tableau_top_spec(m_before, c.position_in_location, top)
                &&& match top {
                    Some(t) => m_before[card_entity].spec_can_place_on_tableau(t),
                    None => m_before[card_entity].rank == CardRank::King,
                }
            }
        }
}

/// Whether some listed card lies in the given pile kind.
pub open spec fn has_card_at(m: Map<Entity, SolitaireCard>, location: CardLocation) -> bool {
    exists|e: Entity| #[trigger] m.dom().contains(e) && m[e].location_type == location
}

impl SolitaireManager {
    /// Turns the top card of the draw pile face up onto the waste
    /// pile.  When the draw pile is empty, the waste pile is turned
    /// back into the draw pile instead.  Reports whether any card
    /// moved: false only when both piles were empty.
    pub fn draw_from_deck<R: Registry>(world: &mut World<R>) -> (drew: bool) where
        SolitaireCard: Component<R>

        requires
            old(world).wf(),
        ensures
            final(world).wf(),
            final(world).next_id() == old(world).next_id(),
            final(world).entity_seq() == old(world).entity_seq(),
            final(world).registry() == <SolitaireCard as Component<R>>::with_storage(
                old(world).registry(),
                <SolitaireCard as Component<R>>::storage_of(final(world).registry()),
            ),
            final(world).component_map::<SolitaireCard>().dom() == old(world).component_map::<
                SolitaireCard,
            >().dom(),
            drew == (has_card_at(old(world).component_map::<SolitaireCard>(), CardLocation::Deck)
                || has_card_at(
                old(world).component_map::<SolitaireCard>(),
                CardLocation::Waste,
            )),
    {
        let ghost r0 = old(world).registry();
        let ghost m0 = old(world).component_map::<SolitaireCard>();
        proof {
            <SolitaireCard as Component<R>>::lemma_with_storage_self(r0);
        }
        let mut best: Option<(Entity, u32)> = None;
        {
            let entries = world.query::<SolitaireCard>();
            let n = entries.len();
            let mut i: usize = 0;
            while i < n
                invariant
                    n == entries@.len(),
                    entries@ == world.component_seq::<SolitaireCard>(),
                    forall|k: int|
                        0 <= k < entries@.len() ==> world.component_map::<
                            SolitaireCard,
                        >().dom().contains((#[trigger] entries@[k]).0) && world.component_map::<
                            SolitaireCard,
                        >()[entries@[k].0] == entries@[k].1,
                    world.component_map::<SolitaireCard>() == m0,
                    0 <= i <= n,
                    match best {
                        Some(p) => m0.dom().contains(p.0) && m0[p.0].location_type
                            == CardLocation::Deck,
                        None => forall|k: int|
                            0 <= k < i ==> (#[trigger] entries@[k]).1.location_type
                                != CardLocation::Deck,
                    },
                decreases n - i,
            {
                if entries[i].1.location_type == CardLocation::Deck {
                    match best {
                        Some(p) => {
                            if entries[i].1.position_in_location > p.1 {
                                best = Some((entries[i].0, entries[i].1.position_in_location));
                            }
                        },
                        None => {
                            best = Some((entries[i].0, entries[i].1.position_in_location));
                        },
                    }
                }
                i += 1;
            }
            proof {
                if best is None {
                    assert forall|e: Entity| #[trigger]
                        m0.dom().contains(e) implies m0[e].location_type != CardLocation::Deck by {
                        let k = choose|k: int|
                            0 <= k < entries@.len() && (#[trigger] entries@[k]) == (e, m0[e]);
                        assert(entries@[k].1 == m0[e]);
                    }
                }
            }
        }
        match best {
            Some(p) => {
                match world.get_component_mut::<SolitaireCard>(p.0) {
                    Some(card) => {
                        card.set_location(CardLocation::Waste, 0);
                        card.set_display_position(140, 20);
                        card.flip_up();
                        card.is_movable = true;
                    },
                    None => {},
                }
                proof {
                    assert(world.component_map::<SolitaireCard>().dom() =~= m0.dom());
                    assert(has_card_at(m0, CardLocation::Deck));
                    assert(world.component_map::<SolitaireCard>() == m0.insert(
                        p.0,
                        world.component_map::<SolitaireCard>()[p.0],
                    ));
                    assert(drawn_to_waste(m0[p.0], world.component_map::<SolitaireCard>()[p.0]));
                }
                true
            },
            None => {
                SolitaireManager::recycle_waste_to_deck(world)
            },
        }
    }

    /// Turns the waste pile face down back into the draw pile, in
    /// reverse order.  Reports whether there was anything to turn.
    fn recycle_waste_to_deck<R: Registry>(world: &mut World<R>) -> (recycled: bool) where
        SolitaireCard: Component<R>

        requires
            old(world).wf(),
        ensures
            final(world).wf(),
            final(world).next_id() == old(world).next_id(),
            final(world).entity_seq() == old(world).entity_seq(),
            final(world).registry() == <SolitaireCard as Component<R>>::with_storage(
                old(world).registry(),
                <SolitaireCard as Component<R>>::storage_of(final(world).registry()),
            ),
            final(world).component_map::<SolitaireCard>().dom() == old(world).component_map::<
                SolitaireCard,
            >().dom(),
            recycled == has_card_at(
                old(world).component_map::<SolitaireCard>(),
                CardLocation::Waste,
            ),
            waste_recycled(
                old(world).component_map::<SolitaireCard>(),
                final(world).component_map::<SolitaireCard>(),
            ),
    {
        let ghost r0 = old(world).registry();
        let ghost m0 = old(world).component_map::<SolitaireCard>();
        proof {
            <SolitaireCard as Component<R>>::lemma_with_storage_self(r0);
        }
        let mut waste_cards: Vec<Entity> = Vec::new();
        {
            let entries = world.query::<SolitaireCard>();
            let n = entries.len();
            let mut i: usize = 0;
            while i < n
                invariant
                    n == entries@.len(),
                    forall|k: int|
                        0 <= k < entries@.len() ==> world.component_map::<
                            SolitaireCard,
                        >().dom().contains((#[trigger] entries@[k]).0) && world.component_map::<
                            SolitaireCard,
                        >()[entries@[k].0] == entries@[k].1,
                    world.component_map::<SolitaireCard>() == m0,
                    0 <= i <= n,
                    forall|q: int|
                        0 <= q < waste_cards@.len() ==> m0.dom().contains(
                            #[trigger] waste_cards@[q],
                        ) && m0[waste_cards@[q]].location_type == CardLocation::Waste,
                    forall|k: int|
                        0 <= k < i && (#[trigger] entries@[k]).1.location_type
                            == CardLocation::Waste ==> waste_cards@.contains(entries@[k].0),
                decreases n - i,
            {
                proof {
                    assert(m0.dom().contains(entries@[i as int].0) && m0[entries@[i as int].0]
                        == entries@[i as int].1);
                }
                if entries[i].1.location_type == CardLocation::Waste {
                    let ghost wc_before = waste_cards@;
                    waste_cards.push(entries[i].0);
                    proof {
                        assert(waste_cards@ == wc_before.push(entries@[i as int].0));
                        assert forall|k: int|
                            0 <= k < i + 1 && (#[trigger] entries@[k]).1.location_type
                                == CardLocation::Waste implies waste_cards@.contains(
                            entries@[k].0,
                        ) by {
                            if k < i {
                                let q = choose|q: int|
                                    0 <= q < wc_before.len() && #[trigger] wc_before[q]
                                        == entries@[k].0;
                                assert(waste_cards@[q] == entries@[k].0);
                            } else {
                                assert(waste_cards@[wc_before.len() as int] == entries@[k].0);
                            }
                        }
                    }
                }
                i += 1;
            }
            proof {
                assert forall|e: Entity|
                    #[trigger] m0.dom().contains(e) && m0[e].location_type == CardLocation::Waste
                        implies waste_cards@.contains(e) by {
                    let k = choose|k: int|
                        0 <= k < entries@.len() && (#[trigger] entries@[k]) == (e, m0[e]);
                    assert(entries@[k].1 == m0[e]);
                }
                if waste_cards@.len() == 0 {
                    assert forall|e: Entity| #[trigger]
                        m0.dom().contains(e) implies m0[e].location_type
                        != CardLocation::Waste by {
                        if m0[e].location_type == CardLocation::Waste {
                            assert(waste_cards@.contains(e));
                        }
                    }
                }
            }
        }
        if waste_cards.len() == 0 {
            return false;
        }
        let n = waste_cards.len();
        let mut i: usize = 0;
        while i < n
            invariant
                n == waste_cards@.len(),
                0 <= i <= n,
                world.wf(),
                world.next_id() == old(world).next_id(),
                world.entity_seq() == old(world).entity_seq(),
                world.registry() == <SolitaireCard as Component<R>>::with_storage(
                    r0,
                    <SolitaireCard as Component<R>>::storage_of(world.registry()),
                ),
                world.component_map::<SolitaireCard>().dom() == m0.dom(),
                forall|q: int|
                    0 <= q < n ==> m0.dom().contains(#[trigger] waste_cards@[q])
                        && m0[waste_cards@[q]].location_type == CardLocation::Waste,
                forall|e: Entity|
                    #[trigger] m0.dom().contains(e) ==> world.component_map::<
                        SolitaireCard,
                    >()[e] == m0[e] || returned_to_deck(
                        m0[e],
                        world.component_map::<SolitaireCard>()[e],
                    ),
                forall|e: Entity|
                    #[trigger] m0.dom().contains(e) && m0[e].location_type != CardLocation::Waste
                        ==> world.component_map::<SolitaireCard>()[e] == m0[e],
                forall|k: int|
                    n - i <= k < n ==> returned_to_deck(
                        m0[#[trigger] waste_cards@[k]],
                        world.component_map::<SolitaireCard>()[waste_cards@[k]],
                    ),
            decreases n - i,
        {
            let ghost r_mid = world.registry();
            let card_entity = waste_cards[n - 1 - i];
            match world.get_component_mut::<SolitaireCard>(card_entity) {
                Some(card) => {
                    card.set_location(CardLocation::Deck, #[verifier::truncate] (i as u32));
                    card.set_display_position(20, 20);
                    card.flip_down();
                    card.is_movable = false;
                },
                None => {},
            }
            proof {
                <SolitaireCard as Component<R>>::lemma_with_storage_twice(
                    r0,
                    <SolitaireCard as Component<R>>::storage_of(r_mid),
                    <SolitaireCard as Component<R>>::storage_of(world.registry()),
                );
                assert(world.component_map::<SolitaireCard>().dom() =~= m0.dom());
            }
            i += 1;
        }
        proof {
            assert forall|e: Entity| #[trigger] m0.dom().contains(e) implies (
            if m0[e].location_type == CardLocation::Waste {
                returned_to_deck(m0[e], world.component_map::<SolitaireCard>()[e])
            } else {
                world.component_map::<SolitaireCard>()[e] == m0[e]
            }) by {
                if m0[e].location_type == CardLocation::Waste {
                    assert(waste_cards@.contains(e));
                    let k = choose|k: int|
                        0 <= k < waste_cards@.len() && #[trigger] waste_cards@[k] == e;
                    assert(returned_to_deck(
                        m0[waste_cards@[k]],
                        world.component_map::<SolitaireCard>()[waste_cards@[k]],
                    ));
                }
            }
            assert(m0.dom().contains(waste_cards@[0]) && m0[waste_cards@[0]].location_type
                == CardLocation::Waste);
        }
        true
    }

    /// Tries to place `card_entity` somewhere sensible
    /// automatically: first on a foundation pile, then on a tableau
    /// column.  Reports whether a spot was found; when none was, or
    /// when the entity has no card, nothing changes.
    pub fn auto_place_card<R: Registry>(world: &mut World<R>, card_entity: Entity) -> (placed:
        bool) where SolitaireCard: Component<R>
        requires
            old(world).wf(),
        ensures
            final(world).wf(),
            final(world).next_id() == old(world).next_id(),
            final(world).entity_seq() == old(world).entity_seq(),
            final(world).registry() == <SolitaireCard as Component<R>>::with_storage(
                old(world).registry(),
                <SolitaireCard as Component<R>>::storage_of(final(world).registry()),
            ),
            placed ==> old(world).component_map::<SolitaireCard>().dom().contains(card_entity)
                && auto_placement(
                old(world).component_map::<SolitaireCard>(),
                final(world).component_map::<SolitaireCard>(),
                card_entity,
            ),
            !placed ==> final(world).component_map::<SolitaireCard>() == old(world).component_map::<SolitaireCard>(),
    {
        let card_copy: SolitaireCard = match world.get_component::<SolitaireCard>(card_entity) {
            Some(card) => *card,
            None => {
                proof {
                    <SolitaireCard as Component<R>>::lemma_with_storage_self(
                        old(world).registry(),
                    );
                }
                return false;
            },
        };
        let ghost m0 = old(world).component_map::<SolitaireCard>();
        if SolitaireManager::try_place_on_foundation(world, card_entity, &card_copy) {
            proof {
                let (c, top) = choose|c: SolitaireCard, top: Option<SolitaireCard>|
                    {
                        &&& c.suit == m0[card_entity].suit
                        &&& c.rank == m0[card_entity].rank
                        &&& c.location_type == CardLocation::Foundation
                        &&& c.position_in_location < 4
                        &&& #[trigger] foundation_top_spec(m0, c.position_in_location, top)
                        &&& card_copy.spec_can_place_on_foundation(top)
                        &&& world.component_map::<SolitaireCard>() == m0.insert(card_entity, c)
                    };
                assert(foundation_top_spec(m0, c.position_in_location, top));
            }
            return true;
        }
        let ghost r_mid = world.registry();
        let placed = SolitaireManager::try_place_on_tableau(world, card_entity, &card_copy);
        proof {
            <SolitaireCard as Component<R>>::lemma_with_storage_twice(
                old(world).registry(),
                <SolitaireCard as Component<R>>::storage_of(r_mid),
                <SolitaireCard as Component<R>>::storage_of(world.registry()),
            );
            if placed {
                let (c, top) = choose|c: SolitaireCard, top: Option<SolitaireCard>|
                    {
                        &&& c.suit == m0[card_entity].suit
                        &&& c.rank == m0[card_entity].rank
                        &&& c.location_type == CardLocation::Tableau
                        &&& c.position_in_location < 7
                        &&& #[trigger] tableau_top_spec(m0, c.position_in_location, top)
                        &&& match top {
                            Some(t) => card_copy.spec_can_place_on_tableau(t),
                            None => card_copy.rank == CardRank::King,
                        }
                        &&& world.component_map::<SolitaireCard>() == m0.insert(card_entity, c)
                    };
                assert(tableau_top_spec(m0, c.position_in_location, top));
            }
        }
        placed
    }

    /// Tries each foundation pile in turn and lays the card on the
    /// first whose top admits it.
    fn try_place_on_foundation<R: Registry>(
        world: &mut World<R>,
        card_entity: Entity,
        card: &SolitaireCard,
    ) -> (placed: bool) where SolitaireCard: Component<R>
        requires
            old(world).wf(),
        ensures
            final(world).wf(),
            final(world).next_id() == old(world).next_id(),
            final(world).entity_seq() == old(world).entity_seq(),
            final(world).registry() == <SolitaireCard as Component<R>>::with_storage(
                old(world).registry(),
                <SolitaireCard as Component<R>>::storage_of(final(world).registry()),
            ),
            placed ==> old(world).component_map::<SolitaireCard>().dom().contains(card_entity)
                && exists|c: SolitaireCard, top: Option<SolitaireCard>|
                {
                    &&& c.suit == old(world).component_map::<SolitaireCard>()[card_entity].suit
                    &&& c.rank == old(world).component_map::<SolitaireCard>()[card_entity].rank
                    &&& c.location_type == CardLocation::Foundation
                    &&& c.position_in_location < 4
                    &&& #[trigger] foundation_top_spec(
                        old(world).component_map::<SolitaireCard>(),
                        c.position_in_location,
                        top,
                    )
                    &&& card.spec_can_place_on_foundation(top)
                    &&& final(world).component_map::<SolitaireCard>() == old(world).component_map::<SolitaireCard>().insert(card_entity, c)
                },
            !placed ==> final(world).component_map::<SolitaireCard>() == old(world).component_map::<SolitaireCard>(),
    {
        let ghost r0 = old(world).registry();
        let ghost m0 = old(world).component_map::<SolitaireCard>();
        proof {
            <SolitaireCard as Component<R>>::lemma_with_storage_self(r0);
        }
        let mut foundation_index: u32 = 0;
        while foundation_index < 4
            invariant
                0 <= foundation_index <= 4,
                world.wf(),
                *world == *old(world),
                world.component_map::<SolitaireCard>() == m0,
            decreases 4 - foundation_index,
        {
            let foundation_top = SolitaireManager::get_foundation_top(world, foundation_index);
            let can_place = match foundation_top {
                Some(ref top) => card.can_place_on_foundation(Some(top)),
                None => card.can_place_on_foundation(None),
            };
            if can_place {
                match world.get_component_mut::<SolitaireCard>(card_entity) {
                    Some(card_mut) => {
                        let foundation_x: i32 = 400 + (foundation_index as i32) * 100;
                        card_mut.set_location(CardLocation::Foundation, foundation_index);
                        card_mut.set_display_position(foundation_x, 20);
                        proof {
                            let c = world.component_map::<SolitaireCard>()[card_entity];
                            assert(c.position_in_location == foundation_index);
                            assert(foundation_top_spec(m0, c.position_in_location, foundation_top));
                            assert(card.spec_can_place_on_foundation(foundation_top));
                            assert(world.component_map::<SolitaireCard>() == m0.insert(
                                card_entity,
                                c,
                            ));
                        }
                        return true;
                    },
                    None => {
                        return false;
                    },
                }
            }
            foundation_index += 1;
        }
        false
    }

    /// Tries each tableau column in turn and lays the card on the
    /// first whose top admits it — or, for a king, on the first
    /// empty column.
    fn try_place_on_tableau<R: Registry>(
        world: &mut World<R>,
        card_entity: Entity,
        card: &SolitaireCard,
    ) -> (placed: bool) where SolitaireCard: Component<R>
        requires
            old(world).wf(),
        ensures
            final(world).wf(),
            final(world).next_id() == old(world).next_id(),
            final(world).entity_seq() == old(world).entity_seq(),
            final(world).registry() == <SolitaireCard as Component<R>>::with_storage(
                old(world).registry(),
                <SolitaireCard as Component<R>>::storage_of(final(world).registry()),
            ),
            placed ==> old(world).component_map::<SolitaireCard>().dom().contains(card_entity)
                && exists|c: SolitaireCard, top: Option<SolitaireCard>|
                {
                    &&& c.suit == old(world).component_map::<SolitaireCard>()[card_entity].suit
                    &&& c.rank == old(world).component_map::<SolitaireCard>()[card_entity].rank
                    &&& c.location_type == CardLocation::Tableau
                    &&& c.position_in_location < 7
                    &&& #[trigger] tableau_top_spec(
                        old(world).component_map::<SolitaireCard>(),
                        c.position_in_location,
                        top,
                    )
                    &&& match top {
                        Some(t) => card.spec_can_place_on_tableau(t),
                        None => card.rank == CardRank::King,
                    }
                    &&& final(world).component_map::<SolitaireCard>() == old(world).component_map::<SolitaireCard>().insert(card_entity, c)
                },
            !placed ==> final(world).component_map::<SolitaireCard>() == old(world).component_map::<SolitaireCard>(),
    {
        let ghost r0 = old(world).registry();
        let ghost m0 = old(world).component_map::<SolitaireCard>();
        proof {
            <SolitaireCard as Component<R>>::lemma_with_storage_self(r0);
        }
        let mut column: u32 = 0;
        while column < 7
            invariant
                0 <= column <= 7,
                world.wf(),
                *world == *old(world),
                world.component_map::<SolitaireCard>() == m0,
            decreases 7 - column,
        {
            let tableau_top = SolitaireManager::get_tableau_top(world, column);
            let can_place = match tableau_top {
                Some(ref top_card) => card.can_place_on_tableau(top_card),
                None => card.can_place_on_empty_tableau(),
            };
            if can_place {
                let card_count = SolitaireManager::count_tableau_cards(world, column);
                match world.get_component_mut::<SolitaireCard>(card_entity) {
                    Some(card_mut) => {
                        let column_x: i32 = 20 + (column as i32) * 100;
                        let count_capped: i32 = if card_count > 104 {
                            104
                        } else {
                            card_count as i32
                        };
                        let column_y: i32 = 150 + count_capped * 25;
                        card_mut.set_location(CardLocation::Tableau, column);
                        card_mut.set_display_position(column_x, column_y);
                        proof {
                            let c = world.component_map::<SolitaireCard>()[card_entity];
                            assert(c.position_in_location == column);
                            assert(tableau_top_spec(m0, c.position_in_location, tableau_top));
                            assert(world.component_map::<SolitaireCard>() == m0.insert(
                                card_entity,
                                c,
                            ));
                        }
                        return true;
                    },
                    None => {
                        return false;
                    },
                }
            }
            column += 1;
        }
        false
    }
}


/// How many of the listed cards lie on a foundation pile.
pub open spec fn spec_foundation_total(s: Seq<(Entity, SolitaireCard)>) -> nat {
    s.filter(|p: (Entity, SolitaireCard)| p.1.location_type == CardLocation::Foundation).len()
}

impl SolitaireGameState {
    /// Checks whether every card of the variant has reached the
    /// foundations; when they have, marks the game completed and
    /// won and folds the time bonus and move penalty into the
    /// score.  `now` is the present time in seconds since the
    /// epoch.
    pub fn check_completion<R: Registry>(&mut self, world: &World<R>, now: u64) -> (completed:
        bool) where SolitaireCard: Component<R>
        requires
            world.wf(),
            now >= old(self).start_time,
        ensures
            old(self).is_completed ==> completed && *final(self) == *old(self),
            !old(self).is_completed ==> {
                &&& completed == (spec_foundation_total(world.component_seq::<SolitaireCard>())
                    == old(self).game_type.spec_required_cards())
                &&& completed ==> *final(self) == (SolitaireGameState {
                    is_completed: true,
                    is_won: true,
                    score: old(self).spec_final_score(now),
                    ..*old(self)
                })
                &&& !completed ==> *final(self) == *old(self)
            },
    {
        if self.is_completed {
            return true;
        }
        let entries = world.query::<SolitaireCard>();
        let total = entries.len();
        let mut foundation_count: usize = 0;
        proof {
            reveal(Seq::filter);
            assert(entries@.take(0).filter(
                |p: (Entity, SolitaireCard)| p.1.location_type == CardLocation::Foundation,
            ) =~= Seq::<(Entity, SolitaireCard)>::empty());
        }
        let mut i: usize = 0;
        while i < total
            invariant
                total == entries@.len(),
                0 <= i <= total,
                foundation_count <= i,
                foundation_count == entries@.take(i as int).filter(
                    |p: (Entity, SolitaireCard)| p.1.location_type == CardLocation::Foundation,
                ).len(),
            decreases total - i,
        {
            proof {
                reveal(Seq::filter);
                assert(entries@.take(i + 1) =~= entries@.take(i as int).push(
                    entries@[i as int],
                ));
                assert(entries@.take(i + 1).drop_last() =~= entries@.take(i as int));
            }
            if entries[i].1.location_type == CardLocation::Foundation {
                foundation_count += 1;
            }
            i += 1;
        }
        proof {
            assert(entries@.take(total as int) =~= entries@);
        }
        let required: usize = match self.game_type {
            SolitaireType::Klondike => 52,
            SolitaireType::FreeCell => 52,
            SolitaireType::Spider => 104,
        };
        if foundation_count == required {
            self.is_completed = true;
            self.is_won = true;
            self.calculate_final_score(now);
            true
        } else {
            false
        }
    }
}

/// The two cards agree except that the selection mark may have
/// been cleared.
pub open spec fn only_selection_cleared(before: SolitaireCard, after: SolitaireCard) -> bool {
    after == (SolitaireCard { is_selected: after.is_selected, ..before }) && (after.is_selected
        ==> before.is_selected)
}

/// The two cards agree except for the display position and the
/// animation flag.
pub open spec fn only_motion_changed(before: SolitaireCard, after: SolitaireCard) -> bool {
    after == (SolitaireCard {
        display_x: after.display_x,
        display_y: after.display_y,
        is_animating: after.is_animating,
        ..before
    })
}

/// The two game states agree except for completion, the hint, and
/// the idle clock.
pub open spec fn only_progress_changed(
    before: SolitaireGameState,
    after: SolitaireGameState,
) -> bool {
    after == (SolitaireGameState {
        is_completed: after.is_completed,
        is_won: after.is_won,
        hint_available: after.hint_available,
        idle_time: after.idle_time,
        ..before
    })
}

/// Clears the selection mark from every selected card; deciding
/// where a selected card goes belongs to the input layer outside
/// the library.
pub struct CardMovementSystem;

impl<R: Registry> System<R> for CardMovementSystem where SolitaireCard: Component<R> {
    /// The roster and id counter stay; only the `SolitaireCard`
    /// slot of the registry changes, and no card appears or
    /// disappears.
    open spec fn effect(
        pre: CardMovementSystem,
        w_pre: World<R>,
        post: CardMovementSystem,
        w_post: World<R>,
        delta_time: u64,
    ) -> bool {
        &&& w_post.next_id() == w_pre.next_id()
        &&& w_post.entity_seq() == w_pre.entity_seq()
        &&& w_post.registry() == <SolitaireCard as Component<R>>::with_storage(
            w_pre.registry(),
            <SolitaireCard as Component<R>>::storage_of(w_post.registry()),
        )
        &&& w_post.component_map::<SolitaireCard>().dom() == w_pre.component_map::<
            SolitaireCard,
        >().dom()
        &&& forall|e: Entity|
            #[trigger] w_post.component_map::<SolitaireCard>().dom().contains(e)
                ==> only_selection_cleared(
                w_pre.component_map::<SolitaireCard>()[e],
                w_post.component_map::<SolitaireCard>()[e],
            )
    }

    fn update(&mut self, world: &mut World<R>, delta_time: u64) {
        let ghost r0 = old(world).registry();
        let ghost m0 = old(world).component_map::<SolitaireCard>();
        let ghost dom0 = old(world).component_map::<SolitaireCard>().dom();
        proof {
            <SolitaireCard as Component<R>>::lemma_with_storage_self(r0);
        }
        let mut selected: Vec<Entity> = Vec::new();
        {
            let entries = world.query::<SolitaireCard>();
            let n = entries.len();
            let mut i: usize = 0;
            while i < n
                invariant
                    n == entries@.len(),
                    0 <= i <= n,
                decreases n - i,
            {
                if entries[i].1.is_selected {
                    selected.push(entries[i].0);
                }
                i += 1;
            }
        }
        let m = selected.len();
        let mut j: usize = 0;
        while j < m
            invariant
                m == selected@.len(),
                0 <= j <= m,
                world.wf(),
                world.next_id() == old(world).next_id(),
                world.entity_seq() == old(world).entity_seq(),
                world.registry() == <SolitaireCard as Component<R>>::with_storage(
                    r0,
                    <SolitaireCard as Component<R>>::storage_of(world.registry()),
                ),
                world.component_map::<SolitaireCard>().dom() == dom0,
                forall|e: Entity|
                    #[trigger] world.component_map::<SolitaireCard>().dom().contains(e)
                        ==> only_selection_cleared(
                        m0[e],
                        world.component_map::<SolitaireCard>()[e],
                    ),
            decreases m - j,
        {
            let ghost r_mid = world.registry();
            match world.get_component_mut::<SolitaireCard>(selected[j]) {
                Some(card) => {
                    card.is_selected = false;
                },
                None => {},
            }
            proof {
                <SolitaireCard as Component<R>>::lemma_with_storage_twice(
                    r0,
                    <SolitaireCard as Component<R>>::storage_of(r_mid),
                    <SolitaireCard as Component<R>>::storage_of(world.registry()),
                );
                assert(world.component_map::<SolitaireCard>().dom() =~= dom0);
            }
            j += 1;
        }
    }

    fn name(&self) -> &'static str {
        "CardMovementSystem"
    }
}

/// Moves cards between positions in whole-pixel steps: a card in
/// motion approaches its target on each axis and snaps onto it when
/// it comes within a pixel of it.
pub struct CardAnimationSystem;

impl<R: Registry> System<R> for CardAnimationSystem where SolitaireCard: Component<R> {
    /// The roster and id counter stay; only the `SolitaireCard`
    /// slot of the registry changes, and no card appears or
    /// disappears.
    open spec fn effect(
        pre: CardAnimationSystem,
        w_pre: World<R>,
        post: CardAnimationSystem,
        w_post: World<R>,
        delta_time: u64,
    ) -> bool {
        &&& w_post.next_id() == w_pre.next_id()
        &&& w_post.entity_seq() == w_pre.entity_seq()
        &&& w_post.registry() == <SolitaireCard as Component<R>>::with_storage(
            w_pre.registry(),
            <SolitaireCard as Component<R>>::storage_of(w_post.registry()),
        )
        &&& w_post.component_map::<SolitaireCard>().dom() == w_pre.component_map::<
            SolitaireCard,
        >().dom()
        &&& forall|e: Entity|
            #[trigger] w_post.component_map::<SolitaireCard>().dom().contains(e)
                ==> only_motion_changed(
                w_pre.component_map::<SolitaireCard>()[e],
                w_post.component_map::<SolitaireCard>()[e],
            )
        &&& forall|e: Entity|
            #[trigger] w_post.component_map::<SolitaireCard>().dom().contains(e)
                && !w_pre.component_map::<SolitaireCard>()[e].is_animating ==> w_post.component_map::<SolitaireCard>()[e]
                == w_pre.component_map::<SolitaireCard>()[e]
    }

    fn update(&mut self, world: &mut World<R>, delta_time: u64) {
        let ghost r0 = old(world).registry();
        let ghost m0 = old(world).component_map::<SolitaireCard>();
        let ghost dom0 = old(world).component_map::<SolitaireCard>().dom();
        proof {
            <SolitaireCard as Component<R>>::lemma_with_storage_self(r0);
        }
        // 500 pixels per second, delta_time in milliseconds, capped
        // so that one tick cannot overshoot the arithmetic below.
        let capped_ms: u64 = if delta_time > 1000000 {
            1000000
        } else {
            delta_time
        };
        let step: i64 = ((capped_ms / 1000) as i64) * 500 + (((capped_ms % 1000) * 500
            / 1000) as i64);
        let step: i64 = if step < 1 {
            1
        } else {
            step
        };
        let mut animating: Vec<Entity> = Vec::new();
        {
            let entries = world.query::<SolitaireCard>();
            let n = entries.len();
            let mut i: usize = 0;
            while i < n
                invariant
                    n == entries@.len(),
                    forall|k: int|
                        0 <= k < entries@.len() ==> world.component_map::<
                            SolitaireCard,
                        >().dom().contains((#[trigger] entries@[k]).0) && world.component_map::<
                            SolitaireCard,
                        >()[entries@[k].0] == entries@[k].1,
                    world.component_map::<SolitaireCard>() == m0,
                    0 <= i <= n,
                    forall|q: int|
                        0 <= q < animating@.len() ==> m0.dom().contains(
                            #[trigger] animating@[q],
                        ) && m0[animating@[q]].is_animating,
                decreases n - i,
            {
                if entries[i].1.is_animating {
                    animating.push(entries[i].0);
                }
                i += 1;
            }
        }
        let m = animating.len();
        let mut j: usize = 0;
        while j < m
            invariant
                1 <= step <= 1000000,
                m == animating@.len(),
                0 <= j <= m,
                world.wf(),
                world.next_id() == old(world).next_id(),
                world.entity_seq() == old(world).entity_seq(),
                world.registry() == <SolitaireCard as Component<R>>::with_storage(
                    r0,
                    <SolitaireCard as Component<R>>::storage_of(world.registry()),
                ),
                world.component_map::<SolitaireCard>().dom() == dom0,
                forall|q: int|
                    0 <= q < animating@.len() ==> m0.dom().contains(#[trigger] animating@[q])
                        && m0[animating@[q]].is_animating,
                forall|e: Entity|
                    #[trigger] world.component_map::<SolitaireCard>().dom().contains(e)
                        ==> only_motion_changed(
                        m0[e],
                        world.component_map::<SolitaireCard>()[e],
                    ),
                forall|e: Entity|
                    #[trigger] world.component_map::<SolitaireCard>().dom().contains(e)
                        && !m0[e].is_animating ==> world.component_map::<SolitaireCard>()[e]
                        == m0[e],
            decreases m - j,
        {
            let ghost r_mid = world.registry();
            match world.get_component_mut::<SolitaireCard>(animating[j]) {
                Some(card) => {
                    let dx: i64 = (card.target_x as i64) - (card.display_x as i64);
                    let dy: i64 = (card.target_y as i64) - (card.display_y as i64);
                    if -2 < dx && dx < 2 && -2 < dy && dy < 2 {
                        card.finish_animation();
                    } else {
                        let move_x: i64 = if dx > step {
                            step
                        } else if dx < -step {
                            -step
                        } else {
                            dx
                        };
                        let move_y: i64 = if dy > step {
                            step
                        } else if dy < -step {
                            -step
                        } else {
                            dy
                        };
                        card.display_x = ((card.display_x as i64) + move_x) as i32;
                        card.display_y = ((card.display_y as i64) + move_y) as i32;
                    }
                },
                None => {},
            }
            proof {
                <SolitaireCard as Component<R>>::lemma_with_storage_twice(
                    r0,
                    <SolitaireCard as Component<R>>::storage_of(r_mid),
                    <SolitaireCard as Component<R>>::storage_of(world.registry()),
                );
                assert(world.component_map::<SolitaireCard>().dom() =~= dom0);
            }
            j += 1;
        }
    }

    fn name(&self) -> &'static str {
        "CardAnimationSystem"
    }
}

/// Watches each running game: advances the idle clock, marks games
/// whose cards have all reached the foundations as won, and uses up
/// the hint once a game has sat idle long enough.  The driver sets
/// `now` before each tick.
pub struct SolitaireProgressSystem {
    /// The current time, in seconds since the epoch.
    pub now: u64,
}

impl<R: Registry> System<R> for SolitaireProgressSystem where
    SolitaireCard: Component<R>,
    SolitaireGameState: Component<R>,
 {
    /// The roster and id counter stay; only the
    /// `SolitaireGameState` slot of the registry changes, and no
    /// game state appears or disappears.
    open spec fn effect(
        pre: SolitaireProgressSystem,
        w_pre: World<R>,
        post: SolitaireProgressSystem,
        w_post: World<R>,
        delta_time: u64,
    ) -> bool {
        &&& post == pre
        &&& w_post.next_id() == w_pre.next_id()
        &&& w_post.entity_seq() == w_pre.entity_seq()
        &&& w_post.registry() == <SolitaireGameState as Component<R>>::with_storage(
            w_pre.registry(),
            <SolitaireGameState as Component<R>>::storage_of(w_post.registry()),
        )
        &&& w_post.component_map::<SolitaireGameState>().dom() == w_pre.component_map::<
            SolitaireGameState,
        >().dom()
        &&& forall|e: Entity|
            #[trigger] w_post.component_map::<SolitaireGameState>().dom().contains(e)
                ==> only_progress_changed(
                w_pre.component_map::<SolitaireGameState>()[e],
                w_post.component_map::<SolitaireGameState>()[e],
            )
        &&& forall|e: Entity|
            #[trigger] w_post.component_map::<SolitaireGameState>().dom().contains(e)
                && w_pre.component_map::<SolitaireGameState>()[e].is_completed ==> w_post.component_map::<SolitaireGameState>()[e]
                == w_pre.component_map::<SolitaireGameState>()[e]
    }

    fn update(&mut self, world: &mut World<R>, delta_time: u64) {
        let ghost r0 = old(world).registry();
        let ghost m0 = old(world).component_map::<SolitaireGameState>();
        let ghost dom0 = old(world).component_map::<SolitaireGameState>().dom();
        proof {
            <SolitaireGameState as Component<R>>::lemma_with_storage_self(r0);
        }
        let mut foundation_count: usize = 0;
        {
            let entries = world.query::<SolitaireCard>();
            let n = entries.len();
            let mut i: usize = 0;
            while i < n
                invariant
                    n == entries@.len(),
                    0 <= i <= n,
                    foundation_count <= i,
                decreases n - i,
            {
                if entries[i].1.location_type == CardLocation::Foundation {
                    foundation_count += 1;
                }
                i += 1;
            }
        }
        let mut running: Vec<Entity> = Vec::new();
        {
            let entries = world.query::<SolitaireGameState>();
            let n = entries.len();
            let mut i: usize = 0;
            while i < n
                invariant
                    n == entries@.len(),
                    forall|k: int|
                        0 <= k < entries@.len() ==> world.component_map::<
                            SolitaireGameState,
                        >().dom().contains((#[trigger] entries@[k]).0) && world.component_map::<
                            SolitaireGameState,
                        >()[entries@[k].0] == entries@[k].1,
                    world.component_map::<SolitaireGameState>() == m0,
                    0 <= i <= n,
                    forall|q: int|
                        0 <= q < running@.len() ==> m0.dom().contains(#[trigger] running@[q])
                            && !m0[running@[q]].is_completed,
                decreases n - i,
            {
                if !entries[i].1.is_completed {
                    running.push(entries[i].0);
                }
                i += 1;
            }
        }
        let delta_seconds: u64 = delta_time / 1000;
        let m = running.len();
        let mut j: usize = 0;
        while j < m
            invariant
                m == running@.len(),
                0 <= j <= m,
                delta_seconds <= u64::MAX / 1000,
                world.wf(),
                world.next_id() == old(world).next_id(),
                world.entity_seq() == old(world).entity_seq(),
                world.registry() == <SolitaireGameState as Component<R>>::with_storage(
                    r0,
                    <SolitaireGameState as Component<R>>::storage_of(world.registry()),
                ),
                world.component_map::<SolitaireGameState>().dom() == dom0,
                forall|q: int|
                    0 <= q < running@.len() ==> m0.dom().contains(#[trigger] running@[q])
                        && !m0[running@[q]].is_completed,
                forall|e: Entity|
                    #[trigger] world.component_map::<SolitaireGameState>().dom().contains(e)
                        ==> only_progress_changed(
                        m0[e],
                        world.component_map::<SolitaireGameState>()[e],
                    ),
                forall|e: Entity|
                    #[trigger] world.component_map::<SolitaireGameState>().dom().contains(e)
                        && m0[e].is_completed ==> world.component_map::<
                        SolitaireGameState,
                    >()[e] == m0[e],
            decreases m - j,
        {
            let ghost r_mid = world.registry();
            match world.get_component_mut::<SolitaireGameState>(running[j]) {
                Some(game_state) => {
                    if game_state.idle_time <= u64::MAX - delta_seconds {
                        game_state.update_idle_time(delta_seconds);
                    }
                    if !game_state.is_completed && foundation_count >= 52 {
                        game_state.is_completed = true;
                        game_state.is_won = true;
                    }
                    if game_state.idle_time > 30 && game_state.hint_available {
                        game_state.hint_available = false;
                    }
                },
                None => {},
            }
            proof {
                <SolitaireGameState as Component<R>>::lemma_with_storage_twice(
                    r0,
                    <SolitaireGameState as Component<R>>::storage_of(r_mid),
                    <SolitaireGameState as Component<R>>::storage_of(world.registry()),
                );
                assert(world.component_map::<SolitaireGameState>().dom() =~= dom0);
            }
            j += 1;
        }
    }

    fn name(&self) -> &'static str {
        "SolitaireProgressSystem"
    }
}

} // verus!
