//! Small, self-contained component types — a position, a plain
//! playing card, a player, and an append-only event log — together
//! with a system that writes to the log.  They exercise the world
//! and the scheduler without pulling in the whole solitaire rule
//! set.

use vstd::prelude::*;

use crate::ecs::{Component, Entity, Registry, System, World};

verus! {

/// A two-dimensional position in whole pixels.
#[derive(Debug, Clone, Copy, PartialEq, Eq, Structural)]
pub struct Position {
    /// The horizontal coordinate.
    pub x: i32,
    /// The vertical coordinate.
    pub y: i32,
}

impl Position {
    /// Creates a position.
    pub fn new(x: i32, y: i32) -> (p: Position)
        ensures
            p == (Position { x, y }),
    {
        Position { x, y }
    }
}

/// A plain playing card's suit.
#[derive(Debug, Clone, Copy, PartialEq, Eq, Structural)]
pub enum Suit {
    /// Hearts.
    Hearts,
    /// Diamonds.
    Diamonds,
    /// Clubs.
    Clubs,
    /// Spades.
    Spades,
}

/// A plain playing card's rank.
#[derive(Debug, Clone, Copy, PartialEq, Eq, Structural)]
pub enum Rank {
    /// Rank 1.
    Ace,
    /// Rank 2.
    Two,
    /// Rank 3.
    Three,
    /// Rank 4.
    Four,
    /// Rank 5.
    Five,
    /// Rank 6.
    Six,
    /// Rank 7.
    Seven,
    /// Rank 8.
    Eight,
    /// Rank 9.
    Nine,
    /// Rank 10.
    Ten,
    /// Rank 11.
    Jack,
    /// Rank 12.
    Queen,
    /// Rank 13.
    King,
}

/// A plain playing card with a face.
#[derive(Debug, Clone, Copy, PartialEq, Eq, Structural)]
pub struct Card {
    /// The card's suit.
    pub suit: Suit,
    /// The card's rank.
    pub rank: Rank,
    /// Whether the card lies face up.
    pub is_face_up: bool,
}

impl Card {
    /// Creates a face-down card.
    pub fn new(suit: Suit, rank: Rank) -> (c: Card)
        ensures
            c == (Card { suit, rank, is_face_up: false }),
    {
        Card { suit, rank, is_face_up: false }
    }

    /// Turns the card face up.
    pub fn flip_up(&mut self)
        ensures
            *final(self) == (Card { is_face_up: true, ..*old(self) }),
    {
        self.is_face_up = true;
    }

    /// Turns the card face down.
    pub fn flip_down(&mut self)
        ensures
            *final(self) == (Card { is_face_up: false, ..*old(self) }),
    {
        self.is_face_up = false;
    }
}

/// A player with a name, a score, and a connection flag.
#[derive(Debug, Clone, PartialEq)]
pub struct Player {
    /// The player's display name.
    pub name: String,
    /// The player's score.
    pub score: u32,
    /// Whether the player is connected.
    pub is_connected: bool,
}

impl Player {
    /// Creates a connected player with score 0.
    pub fn new(name: String) -> (p: Player)
        ensures
            p.name == name,
            p.score == 0,
            p.is_connected,
    {
        Player { name, score: 0, is_connected: true }
    }
}

/// An append-only log of short labels, for observing in which order
/// systems ran.
#[derive(Debug, Clone, PartialEq)]
pub struct EventLog {
    /// The recorded labels, oldest first.
    pub entries: Vec<&'static str>,
}

impl EventLog {
    /// Creates an empty log.
    pub fn new() -> (lg: EventLog)
        ensures
            lg.entries@ == Seq::<&'static str>::empty(),
    {
        EventLog { entries: Vec::new() }
    }
}

/// A system that appends its label to the event log of one entity on
/// every tick.  Two of these with different labels make the
/// scheduler's execution order observable.
#[derive(Debug, Clone, Copy, PartialEq, Eq)]
pub struct LogSystem {
    /// The label this system appends.
    pub label: &'static str,
    /// The entity whose log is written.
    pub target: Entity,
}

impl LogSystem {
    /// Creates a log system writing `label` to the log of `target`.
    pub fn new(label: &'static str, target: Entity) -> (s: LogSystem)
        ensures
            s == (LogSystem { label, target }),
    {
        LogSystem { label, target }
    }
}

impl<R: Registry> System<R> for LogSystem where EventLog: Component<R> {
    /// The system itself never changes; the world keeps its roster
    /// and id counter; the target's log, when present, grows by
    /// exactly this system's label; everything else stays as it was.
    open spec fn effect(
        pre: LogSystem,
        w_pre: World<R>,
        post: LogSystem,
        w_post: World<R>,
        delta_time: u64,
    ) -> bool {
        &&& post == pre
        &&& w_post.next_id() == w_pre.next_id()
        &&& w_post.entity_seq() == w_pre.entity_seq()
        &&& w_post.registry() == <EventLog as Component<R>>::with_storage(
            w_pre.registry(),
            <EventLog as Component<R>>::storage_of(w_post.registry()),
        )
        &&& if w_pre.component_map::<EventLog>().dom().contains(pre.target) {
            exists|lg: EventLog|
                lg.entries@ == w_pre.component_map::<EventLog>()[pre.target].entries@.push(
                    pre.label,
                ) && w_post.component_map::<EventLog>() == w_pre.component_map::<
                    EventLog,
                >().insert(pre.target, lg)
        } else {
            w_post.component_map::<EventLog>() == w_pre.component_map::<EventLog>()
        }
    }

    fn update(&mut self, world: &mut World<R>, delta_time: u64) {
        match world.get_component_mut::<EventLog>(self.target) {
            Some(lg) => {
                lg.entries.push(self.label);
            },
            None => {},
        }
    }

    fn name(&self) -> &'static str {
        self.label
    }
}


/// Builds a full 52-card demonstration deck: every suit and rank
/// once, the first five cards face up, each card also given a
/// position on a small grid.  Returns the new entities.
pub fn create_test_deck(world: &mut World<crate::registry::GameRegistry>) -> (deck: Vec<
    Entity,
>)
    requires
        old(world).wf(),
        old(world).next_id() + 52 <= u32::MAX,
    ensures
        final(world).wf(),
        deck@.len() == 52,
        final(world).next_id() == old(world).next_id() + 52,
        final(world).entity_seq().len() == old(world).entity_seq().len() + 52,
        forall|k: int|
            0 <= k < 52 ==> final(world).component_map::<Card>().dom().contains(
                #[trigger] deck@[k],
            ) && final(world).component_map::<Position>().dom().contains(deck@[k]),
{
    let suits = [Suit::Hearts, Suit::Diamonds, Suit::Clubs, Suit::Spades];
    let ranks = [
        Rank::Ace,
        Rank::Two,
        Rank::Three,
        Rank::Four,
        Rank::Five,
        Rank::Six,
        Rank::Seven,
        Rank::Eight,
        Rank::Nine,
        Rank::Ten,
        Rank::Jack,
        Rank::Queen,
        Rank::King,
    ];
    let mut deck: Vec<Entity> = Vec::new();
    let mut x_pos: i32 = 0;
    let mut y_pos: i32 = 0;
    let mut k: usize = 0;
    while k < 52
        invariant
            0 <= k <= 52,
            deck@.len() == k,
            0 <= x_pos <= 350,
            0 <= y_pos <= 70 * k,
            world.wf(),
            world.next_id() == old(world).next_id() + k,
            old(world).next_id() + 52 <= u32::MAX,
            world.entity_seq().len() == old(world).entity_seq().len() + k,
            forall|q: int|
                0 <= q < k ==> world.component_map::<Card>().dom().contains(#[trigger] deck@[q])
                    && world.component_map::<Position>().dom().contains(deck@[q]),
        decreases 52 - k,
    {
        let ghost cards_before = world.component_map::<Card>();
        let entity = world.create_entity();
        let mut card = Card::new(suits[(k / 13) % 4], ranks[k % 13]);
        if k < 5 {
            card.flip_up();
        }
        world.add_component::<Card>(entity, card);
        world.add_component::<Position>(entity, Position::new(x_pos, y_pos));
        deck.push(entity);
        x_pos = x_pos + 50;
        if x_pos > 300 {
            x_pos = 0;
            y_pos = y_pos + 70;
        }
        k += 1;
    }
    deck
}

/// Creates three demonstration players with staggered starting
/// scores and positions.  Returns the new entities.
pub fn create_test_players(world: &mut World<crate::registry::GameRegistry>) -> (players: Vec<
    Entity,
>)
    requires
        old(world).wf(),
        old(world).next_id() + 3 <= u32::MAX,
    ensures
        final(world).wf(),
        players@.len() == 3,
        final(world).next_id() == old(world).next_id() + 3,
        final(world).entity_seq().len() == old(world).entity_seq().len() + 3,
        forall|k: int|
            0 <= k < 3 ==> final(world).component_map::<Player>().dom().contains(
                #[trigger] players@[k],
            ) && final(world).component_map::<Position>().dom().contains(players@[k]),
{
    let names = ["Alice", "Bob", "Carol"];
    let mut players: Vec<Entity> = Vec::new();
    let mut i: usize = 0;
    while i < 3
        invariant
            0 <= i <= 3,
            players@.len() == i,
            world.wf(),
            world.next_id() == old(world).next_id() + i,
            old(world).next_id() + 3 <= u32::MAX,
            world.entity_seq().len() == old(world).entity_seq().len() + i,
            forall|q: int|
                0 <= q < i ==> world.component_map::<Player>().dom().contains(
                    #[trigger] players@[q],
                ) && world.component_map::<Position>().dom().contains(players@[q]),
        decreases 3 - i,
    {
        let entity = world.create_entity();
        let mut player = Player::new(names[i].to_owned());
        player.score = ((i + 1) * 100) as u32;
        world.add_component::<Player>(entity, player);
        world.add_component::<Position>(entity, Position::new((i as i32) * 100, -50));
        players.push(entity);
        i += 1;
    }
    players
}

} // verus!
