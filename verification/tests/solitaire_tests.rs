use ecs_core::ecs::{Entity, SystemScheduler, World};
use ecs_core::registry::GameRegistry;
use ecs_core::solitaire::{
    CardAnimationSystem, CardColor, CardLocation, CardMovementSystem, CardRank, CardStack,
    CardSuit, SolitaireCard, SolitaireGameState, SolitaireManager, SolitaireProgressSystem,
    SolitaireType,
};

fn new_world() -> World<GameRegistry> {
    World::<GameRegistry>::new()
}

#[test]
fn suits_and_ranks_enumerate_fully() {
    let suits = CardSuit::all();
    assert_eq!(suits.len(), 4);
    assert_eq!(suits[0], CardSuit::Hearts);
    assert_eq!(suits[3], CardSuit::Spades);
    assert_eq!(CardSuit::Hearts.symbol(), "\u{2665}");
    assert_eq!(CardSuit::Spades.symbol(), "\u{2660}");
    let ranks = CardRank::all();
    assert_eq!(ranks.len(), 13);
    assert_eq!(ranks[0], CardRank::Ace);
    assert_eq!(ranks[12], CardRank::King);
    for (i, r) in ranks.iter().enumerate() {
        assert_eq!(r.value() as usize, i + 1);
    }
    assert_eq!(CardRank::Ace.display(), "A");
    assert_eq!(CardRank::Ten.display(), "10");
    assert_eq!(CardRank::King.display(), "K");
}

#[test]
fn location_and_variant_names() {
    assert_eq!(CardLocation::Deck.name(), "deck");
    assert_eq!(CardLocation::Waste.name(), "waste");
    assert_eq!(CardLocation::Tableau.name(), "tableau");
    assert_eq!(CardLocation::Foundation.name(), "foundation");
    assert_eq!(SolitaireType::Klondike.name(), "klondike");
    assert_eq!(SolitaireType::Spider.name(), "spider");
    assert_eq!(SolitaireType::FreeCell.name(), "free cell");
}

#[test]
fn cards_start_face_down_in_the_deck() {
    let card = SolitaireCard::new(CardSuit::Hearts, CardRank::Seven);
    assert!(!card.is_face_up);
    assert_eq!(card.location_type, CardLocation::Deck);
    assert!(!card.is_movable);
    assert_eq!(card.get_color(), CardColor::Red);
    let black = SolitaireCard::new(CardSuit::Clubs, CardRank::Two);
    assert_eq!(black.get_color(), CardColor::Black);
}

#[test]
fn flipping_controls_movability() {
    let mut card = SolitaireCard::new(CardSuit::Spades, CardRank::Five);
    card.set_location(CardLocation::Tableau, 3);
    assert!(!card.is_movable);
    card.flip_up();
    assert!(card.is_face_up);
    assert!(card.is_movable);
    card.flip_down();
    assert!(!card.is_face_up);
    assert!(!card.is_movable);
    card.flip_up();
    card.set_location(CardLocation::Foundation, 0);
    assert!(!card.is_movable);
}

#[test]
fn tableau_placement_needs_alternating_colors_one_rank_apart() {
    let mut red7 = SolitaireCard::new(CardSuit::Hearts, CardRank::Seven);
    let mut black8 = SolitaireCard::new(CardSuit::Spades, CardRank::Eight);
    red7.flip_up();
    black8.flip_up();
    assert!(red7.can_place_on_tableau(&black8));
    assert!(!black8.can_place_on_tableau(&red7));
    let red8 = SolitaireCard::new(CardSuit::Diamonds, CardRank::Eight);
    assert!(!red7.can_place_on_tableau(&red8));
    let black9 = SolitaireCard::new(CardSuit::Clubs, CardRank::Nine);
    assert!(black8.can_place_on_tableau(&black9) == false);
    assert!(!SolitaireCard::new(CardSuit::Hearts, CardRank::Queen).can_place_on_empty_tableau());
    assert!(SolitaireCard::new(CardSuit::Hearts, CardRank::King).can_place_on_empty_tableau());
}

#[test]
fn foundation_placement_builds_up_by_suit_from_the_ace() {
    let ace = SolitaireCard::new(CardSuit::Hearts, CardRank::Ace);
    let two_hearts = SolitaireCard::new(CardSuit::Hearts, CardRank::Two);
    let two_spades = SolitaireCard::new(CardSuit::Spades, CardRank::Two);
    assert!(ace.can_place_on_foundation(None));
    assert!(!two_hearts.can_place_on_foundation(None));
    assert!(two_hearts.can_place_on_foundation(Some(&ace)));
    assert!(!two_spades.can_place_on_foundation(Some(&ace)));
    let three_hearts = SolitaireCard::new(CardSuit::Hearts, CardRank::Three);
    assert!(!three_hearts.can_place_on_foundation(Some(&ace)));
}

#[test]
fn animation_moves_between_positions() {
    let mut card = SolitaireCard::new(CardSuit::Hearts, CardRank::Ace);
    card.set_display_position(10, 10);
    card.start_animation(50, 60);
    assert!(card.is_animating);
    assert_eq!((card.target_x, card.target_y), (50, 60));
    card.finish_animation();
    assert!(!card.is_animating);
    assert_eq!((card.display_x, card.display_y), (50, 60));
}

#[test]
fn game_state_scores_moves_and_deck_turns() {
    let mut g = SolitaireGameState::new(SolitaireType::Klondike, 1000);
    assert_eq!(g.score, 0);
    assert_eq!(g.move_count, 0);
    assert!(!g.is_completed);
    g.record_move(10);
    g.record_move(5);
    assert_eq!(g.score, 15);
    assert_eq!(g.move_count, 2);
    g.record_deck_turn();
    g.record_deck_turn();
    assert_eq!(g.score, 15);
    g.record_deck_turn();
    assert_eq!(g.score, 13);
    assert_eq!(g.deck_turns, 3);
}

#[test]
fn final_score_adds_time_bonus_and_move_penalty() {
    let mut quick = SolitaireGameState::new(SolitaireType::Klondike, 1000);
    quick.record_move(40);
    quick.calculate_final_score(1200);
    assert_eq!(quick.score, 140);
    let mut slow = SolitaireGameState::new(SolitaireType::Klondike, 1000);
    slow.record_move(40);
    slow.calculate_final_score(1500);
    assert_eq!(slow.score, 90);
    let mut grind = SolitaireGameState::new(SolitaireType::Klondike, 1000);
    for _ in 0..150 {
        grind.record_move(0);
    }
    grind.calculate_final_score(2000);
    assert_eq!(grind.score, 0u32.saturating_sub(10));
    assert_eq!(grind.score, 0);
}

#[test]
fn idle_time_accumulates() {
    let mut g = SolitaireGameState::new(SolitaireType::FreeCell, 0);
    g.update_idle_time(12);
    g.update_idle_time(5);
    assert_eq!(g.idle_time, 17);
    g.record_move(0);
    assert_eq!(g.idle_time, 0);
}

#[test]
fn stacks_enforce_their_capacity() {
    let mut free_cell = CardStack::new(CardLocation::FreeCell, 0, 50, 50);
    assert_eq!(free_cell.max_capacity, 1);
    assert!(free_cell.is_empty());
    assert!(free_cell.push_card(Entity::new(1)));
    assert!(!free_cell.push_card(Entity::new(2)));
    assert_eq!(free_cell.len(), 1);
    let mut tableau = CardStack::new(CardLocation::Tableau, 2, 100, 200);
    assert_eq!(tableau.max_capacity, -1);
    assert_eq!(tableau.card_spacing, 20);
    for i in 1..=30u32 {
        assert!(tableau.push_card(Entity::new(i)));
    }
    assert_eq!(tableau.len(), 30);
    assert_eq!(tableau.peek_top(), Some(Entity::new(30)));
    assert_eq!(tableau.pop_card(), Some(Entity::new(30)));
    assert_eq!(tableau.len(), 29);
    assert_eq!(tableau.calculate_card_position(3), (100, 260));
    let foundation = CardStack::new(CardLocation::Foundation, 0, 400, 50);
    assert_eq!(foundation.max_capacity, 13);
    assert_eq!(foundation.calculate_card_position(5), (400, 50));
    let mut empty = CardStack::new(CardLocation::Waste, 0, 0, 0);
    assert_eq!(empty.pop_card(), None);
    assert_eq!(empty.peek_top(), None);
}

#[test]
fn shuffling_keeps_exactly_the_same_cards() {
    let mut cards: Vec<Entity> = (1..=52).map(Entity::new).collect();
    let unshuffled = cards.clone();
    SolitaireManager::shuffle_cards(&mut cards, 987654321);
    assert_eq!(cards.len(), 52);
    let mut sorted = cards.clone();
    sorted.sort_by_key(|e| e.id());
    assert_eq!(sorted, unshuffled);
}

#[test]
fn starting_a_klondike_game_builds_the_board() {
    let mut world = new_world();
    let game = SolitaireManager::start_new_game(&mut world, SolitaireType::Klondike, 7, 500);
    let state = world.get_component::<SolitaireGameState>(game).unwrap();
    assert_eq!(state.game_type, SolitaireType::Klondike);
    assert_eq!(state.start_time, 500);
    assert!(!state.is_completed);
    // 1 game state + 52 cards + 7 tableau piles + 4 foundations.
    assert_eq!(world.entity_count(), 1 + 52 + 11);
    assert_eq!(world.query::<SolitaireCard>().len(), 52);
    assert_eq!(world.query::<CardStack>().len(), 11);
    // The klondike deal puts 28 cards on the tableau.
    let mut tableau_total = 0;
    for column in 0..7 {
        let in_column = SolitaireManager::count_tableau_cards(&world, column);
        assert_eq!(in_column, (column + 1) as usize);
        tableau_total += in_column;
    }
    assert_eq!(tableau_total, 28);
    let deck_cards = world
        .query::<SolitaireCard>()
        .iter()
        .filter(|(_, c)| c.location_type == CardLocation::Deck)
        .count();
    assert_eq!(deck_cards, 24);
    assert!(!SolitaireManager::check_windows_solitaire_win(&world));
}

#[test]
fn drawing_moves_a_deck_card_to_the_waste() {
    let mut world = new_world();
    SolitaireManager::start_new_game(&mut world, SolitaireType::Klondike, 3, 0);
    assert!(SolitaireManager::draw_from_deck(&mut world));
    let waste: Vec<SolitaireCard> = world
        .query::<SolitaireCard>()
        .iter()
        .filter(|(_, c)| c.location_type == CardLocation::Waste)
        .map(|(_, c)| *c)
        .collect();
    assert_eq!(waste.len(), 1);
    assert!(waste[0].is_face_up);
    assert!(waste[0].is_movable);
}

#[test]
fn drawing_from_an_empty_board_reports_nothing_to_do() {
    let mut world = new_world();
    assert!(!SolitaireManager::draw_from_deck(&mut world));
}

#[test]
fn an_ace_auto_places_onto_a_foundation() {
    let mut world = new_world();
    let e = world.create_entity();
    let mut ace = SolitaireCard::new(CardSuit::Diamonds, CardRank::Ace);
    ace.set_location(CardLocation::Waste, 0);
    ace.flip_up();
    world.add_component(e, ace);
    assert!(SolitaireManager::auto_place_card(&mut world, e));
    let placed = world.get_component::<SolitaireCard>(e).unwrap();
    assert_eq!(placed.location_type, CardLocation::Foundation);
    let top = SolitaireManager::get_foundation_top(&world, placed.position_in_location);
    assert_eq!(top.map(|c| c.rank), Some(CardRank::Ace));
}

#[test]
fn auto_place_fails_when_no_spot_admits_the_card() {
    let mut world = new_world();
    let e = world.create_entity();
    let mut five = SolitaireCard::new(CardSuit::Diamonds, CardRank::Five);
    five.set_location(CardLocation::Waste, 0);
    five.flip_up();
    world.add_component(e, five);
    // No foundation holds a four, and no tableau column is topped
    // by a black six; a lone five has nowhere to go.
    assert!(!SolitaireManager::auto_place_card(&mut world, e));
    assert_eq!(
        world.get_component::<SolitaireCard>(e).unwrap().location_type,
        CardLocation::Waste
    );
    let ghost_entity = Entity::new(999);
    assert!(!SolitaireManager::auto_place_card(&mut world, ghost_entity));
}

#[test]
fn completion_detects_a_finished_game() {
    let mut world = new_world();
    let mut state = SolitaireGameState::new(SolitaireType::Klondike, 100);
    // Lay every card of a full deck on the foundations.
    for suit_index in 0..4u32 {
        let suit = CardSuit::all()[suit_index as usize];
        for rank in CardRank::all() {
            let e = world.create_entity();
            let mut card = SolitaireCard::new(suit, rank);
            card.set_location(CardLocation::Foundation, suit_index);
            card.flip_up();
            world.add_component(e, card);
        }
    }
    assert!(state.check_completion(&world, 200));
    assert!(state.is_completed);
    assert!(state.is_won);
    assert_eq!(state.score, 100);
    assert!(SolitaireManager::check_windows_solitaire_win(&world));
    let top = SolitaireManager::get_foundation_top(&world, 2).unwrap();
    assert_eq!(top.rank, CardRank::King);
}

#[test]
fn incomplete_games_are_not_done() {
    let mut world = new_world();
    let mut state = SolitaireGameState::new(SolitaireType::Klondike, 0);
    let e = world.create_entity();
    let mut card = SolitaireCard::new(CardSuit::Hearts, CardRank::Ace);
    card.set_location(CardLocation::Foundation, 0);
    world.add_component(e, card);
    assert!(!state.check_completion(&world, 10));
    assert!(!state.is_completed);
}

#[test]
fn tableau_top_is_the_deepest_face_up_card() {
    let mut world = new_world();
    let e1 = world.create_entity();
    let mut lower = SolitaireCard::new(CardSuit::Hearts, CardRank::Nine);
    lower.set_location(CardLocation::Tableau, 0);
    lower.set_display_position(20, 150);
    lower.flip_up();
    world.add_component(e1, lower);
    let e2 = world.create_entity();
    let mut deeper = SolitaireCard::new(CardSuit::Spades, CardRank::Eight);
    deeper.set_location(CardLocation::Tableau, 0);
    deeper.set_display_position(20, 175);
    deeper.flip_up();
    world.add_component(e2, deeper);
    let top = SolitaireManager::get_tableau_top(&world, 0).unwrap();
    assert_eq!(top.rank, CardRank::Eight);
    assert!(SolitaireManager::get_tableau_top(&world, 3).is_none());
}

#[test]
fn movement_system_clears_selections() {
    let mut world = new_world();
    let e = world.create_entity();
    let mut card = SolitaireCard::new(CardSuit::Hearts, CardRank::Four);
    card.set_location(CardLocation::Tableau, 1);
    card.flip_up();
    card.is_selected = true;
    world.add_component(e, card);
    let mut scheduler = SystemScheduler::new();
    scheduler.add_system(CardMovementSystem);
    scheduler.update(&mut world, 16);
    let after = world.get_component::<SolitaireCard>(e).unwrap();
    assert!(!after.is_selected);
    assert_eq!(after.rank, CardRank::Four);
    assert_eq!(after.location_type, CardLocation::Tableau);
}

#[test]
fn animation_system_steps_cards_and_snaps_them_home() {
    let mut world = new_world();
    let e = world.create_entity();
    let mut card = SolitaireCard::new(CardSuit::Clubs, CardRank::Nine);
    card.set_display_position(0, 0);
    card.start_animation(30, 0);
    world.add_component(e, card);
    let mut scheduler = SystemScheduler::new();
    scheduler.add_system(CardAnimationSystem);
    // 20 ms at 500 pixels per second is a 10-pixel step.
    scheduler.update(&mut world, 20);
    let moving = *world.get_component::<SolitaireCard>(e).unwrap();
    assert!(moving.is_animating);
    assert_eq!((moving.display_x, moving.display_y), (10, 0));
    scheduler.update(&mut world, 20);
    scheduler.update(&mut world, 20);
    // Within a pixel of the target the card snaps onto it.
    scheduler.update(&mut world, 20);
    let done = *world.get_component::<SolitaireCard>(e).unwrap();
    assert!(!done.is_animating);
    assert_eq!((done.display_x, done.display_y), (30, 0));
}

#[test]
fn progress_system_marks_finished_games_and_spends_the_hint() {
    let mut world = new_world();
    let game = world.create_entity();
    world.add_component(game, SolitaireGameState::new(SolitaireType::Klondike, 0));
    for suit_index in 0..4u32 {
        let suit = CardSuit::all()[suit_index as usize];
        for rank in CardRank::all() {
            let e = world.create_entity();
            let mut card = SolitaireCard::new(suit, rank);
            card.set_location(CardLocation::Foundation, suit_index);
            world.add_component(e, card);
        }
    }
    let mut scheduler = SystemScheduler::new();
    scheduler.add_system(SolitaireProgressSystem { now: 10 });
    // One 40-second tick: the game completes and the idle hint is
    // used up.
    scheduler.update(&mut world, 40000);
    let state = world.get_component::<SolitaireGameState>(game).unwrap();
    assert!(state.is_completed);
    assert!(state.is_won);
    assert_eq!(state.idle_time, 40);
    assert!(!state.hint_available);
}

#[test]
fn an_empty_deck_recycles_the_waste() {
    let mut world = new_world();
    // Two cards: one on the waste, none in the deck.
    let e = world.create_entity();
    let mut card = SolitaireCard::new(CardSuit::Hearts, CardRank::Three);
    card.set_location(CardLocation::Waste, 0);
    card.flip_up();
    world.add_component(e, card);
    assert!(SolitaireManager::draw_from_deck(&mut world));
    let recycled = world.get_component::<SolitaireCard>(e).unwrap();
    assert_eq!(recycled.location_type, CardLocation::Deck);
    assert!(!recycled.is_face_up);
    assert!(!recycled.is_movable);
    // The recycled card can now be drawn again.
    assert!(SolitaireManager::draw_from_deck(&mut world));
    let drawn = world.get_component::<SolitaireCard>(e).unwrap();
    assert_eq!(drawn.location_type, CardLocation::Waste);
    assert!(drawn.is_face_up);
}

#[test]
fn foundations_build_upwards_via_auto_placement() {
    let mut world = new_world();
    let ace = world.create_entity();
    let mut ace_card = SolitaireCard::new(CardSuit::Spades, CardRank::Ace);
    ace_card.set_location(CardLocation::Waste, 0);
    ace_card.flip_up();
    world.add_component(ace, ace_card);
    assert!(SolitaireManager::auto_place_card(&mut world, ace));
    let two = world.create_entity();
    let mut two_card = SolitaireCard::new(CardSuit::Spades, CardRank::Two);
    two_card.set_location(CardLocation::Waste, 0);
    two_card.flip_up();
    world.add_component(two, two_card);
    assert!(SolitaireManager::auto_place_card(&mut world, two));
    let placed_ace = world.get_component::<SolitaireCard>(ace).unwrap();
    let placed_two = world.get_component::<SolitaireCard>(two).unwrap();
    assert_eq!(placed_ace.location_type, CardLocation::Foundation);
    assert_eq!(placed_two.location_type, CardLocation::Foundation);
    assert_eq!(placed_ace.position_in_location, placed_two.position_in_location);
    let top = SolitaireManager::get_foundation_top(&world, placed_ace.position_in_location);
    assert_eq!(top.map(|c| c.rank), Some(CardRank::Two));
}
