use ecs_core::ecs::{Entity, SystemScheduler, World};
use ecs_core::game::{
    ActionProcessingSystem, ActionType, GameAction, GameManagementSystem, GameManager, GamePhase,
    GameSettings, GameState, TurnManagementSystem, TurnManager,
};
use ecs_core::registry::GameRegistry;
use ecs_core::room::{GameRoom, GameState as RoomState, RoomInfo};

fn new_world() -> World<GameRegistry> {
    World::<GameRegistry>::new()
}

#[test]
fn phase_labels() {
    assert_eq!(GamePhase::WaitingForPlayers.as_str(), "waiting_for_players");
    assert_eq!(GamePhase::Starting.as_str(), "starting");
    assert_eq!(GamePhase::Playing.as_str(), "playing");
    assert_eq!(GamePhase::Paused.as_str(), "paused");
    assert_eq!(GamePhase::Finished.as_str(), "finished");
    assert_eq!(GamePhase::Aborted.as_str(), "aborted");
}

#[test]
fn phase_transition_table() {
    assert!(GamePhase::WaitingForPlayers.can_transition_to(GamePhase::Starting));
    assert!(GamePhase::Starting.can_transition_to(GamePhase::Playing));
    assert!(GamePhase::Playing.can_transition_to(GamePhase::Paused));
    assert!(GamePhase::Paused.can_transition_to(GamePhase::Playing));
    assert!(GamePhase::Playing.can_transition_to(GamePhase::Finished));
    assert!(GamePhase::Paused.can_transition_to(GamePhase::Aborted));
    assert!(GamePhase::Finished.can_transition_to(GamePhase::WaitingForPlayers));
    assert!(GamePhase::Aborted.can_transition_to(GamePhase::WaitingForPlayers));
    assert!(!GamePhase::WaitingForPlayers.can_transition_to(GamePhase::Playing));
    assert!(!GamePhase::Finished.can_transition_to(GamePhase::Playing));
    assert!(!GamePhase::Paused.can_transition_to(GamePhase::Finished));
}

#[test]
fn settings_default_values() {
    let s = GameSettings::default();
    assert_eq!(s.time_limit, 0);
    assert_eq!(s.turn_time_limit, 30);
    assert!(!s.debug_mode);
    assert!(s.auto_save);
    assert!(s.allow_spectators);
}

#[test]
fn game_state_lifecycle() {
    let mut g = GameState::new(String::from("session-1"), 4, 1000);
    assert_eq!(g.session_id, "session-1");
    assert_eq!(g.phase, GamePhase::WaitingForPlayers);
    assert_eq!(g.start_time, 1000);
    assert_eq!(g.max_players, 4);
    assert_eq!(g.current_players, 0);
    assert!(!g.can_start());
    assert!(g.add_player());
    assert!(!g.can_start());
    assert!(g.add_player());
    assert!(g.can_start());
    assert!(g.add_player());
    assert!(g.add_player());
    assert!(!g.add_player());
    assert_eq!(g.current_players, 4);
    assert!(g.remove_player());
    assert_eq!(g.current_players, 3);
    g.change_phase(GamePhase::Starting);
    assert_eq!(g.phase, GamePhase::Starting);
    assert!(!g.can_start());
}

#[test]
fn remove_player_on_empty_session_fails() {
    let mut g = GameState::new(String::from("s"), 2, 0);
    assert!(!g.remove_player());
    assert_eq!(g.current_players, 0);
}

#[test]
fn turn_manager_rotates_round_robin() {
    let players = vec![Entity::new(1), Entity::new(2), Entity::new(3)];
    let mut tm = TurnManager::new(players, 30, 100);
    assert_eq!(tm.current_player, Some(Entity::new(1)));
    assert_eq!(tm.turn_number, 1);
    assert_eq!(tm.next_turn(110), Some(Entity::new(2)));
    assert_eq!(tm.turn_number, 2);
    assert_eq!(tm.turn_start_time, 110);
    assert_eq!(tm.next_turn(120), Some(Entity::new(3)));
    assert_eq!(tm.next_turn(130), Some(Entity::new(1)));
    assert_eq!(tm.turn_number, 4);
}

#[test]
fn turn_manager_without_players() {
    let mut tm = TurnManager::new(Vec::new(), 30, 0);
    assert_eq!(tm.current_player, None);
    assert_eq!(tm.next_turn(5), None);
}

#[test]
fn remaining_time_counts_down_and_runs_out() {
    let tm = TurnManager::new(vec![Entity::new(1)], 30, 100);
    assert_eq!(tm.remaining_time(100), Some(30));
    assert_eq!(tm.remaining_time(110), Some(20));
    assert_eq!(tm.remaining_time(130), Some(0));
    assert_eq!(tm.remaining_time(500), Some(0));
    assert!(!tm.is_time_up(110));
    assert!(tm.is_time_up(130));
}

#[test]
fn unlimited_turns_never_run_out() {
    let tm = TurnManager::new(vec![Entity::new(1)], 0, 100);
    assert_eq!(tm.remaining_time(100000), None);
    assert!(!tm.is_time_up(100000));
}

#[test]
fn removing_current_player_passes_the_turn() {
    let players = vec![Entity::new(1), Entity::new(2), Entity::new(3)];
    let mut tm = TurnManager::new(players, 30, 0);
    assert!(tm.remove_player(Entity::new(1)));
    assert_eq!(tm.current_player, Some(Entity::new(2)));
    assert!(!tm.remove_player(Entity::new(9)));
    assert!(tm.remove_player(Entity::new(3)));
    assert_eq!(tm.current_player, Some(Entity::new(2)));
    assert!(tm.remove_player(Entity::new(2)));
    assert_eq!(tm.current_player, None);
}

#[test]
fn action_labels_and_fields() {
    assert_eq!(ActionType::MoveCard.as_str(), "move_card");
    assert_eq!(ActionType::FlipCard.as_str(), "flip_card");
    assert_eq!(ActionType::DrawCard.as_str(), "draw_card");
    assert_eq!(ActionType::EndTurn.as_str(), "end_turn");
    assert_eq!(ActionType::LeaveGame.as_str(), "leave_game");
    assert_eq!(ActionType::SendMessage.as_str(), "send_message");
    assert_eq!(ActionType::ChangeSettings.as_str(), "change_settings");
    let a = GameAction::new(Entity::new(5), ActionType::EndTurn, None, 777);
    assert_eq!(a.player, Entity::new(5));
    assert_eq!(a.action_type, ActionType::EndTurn);
    assert_eq!(a.timestamp, 777);
    assert_eq!(a.data, None);
}

#[test]
fn manager_creates_sessions_and_players_join() {
    let mut world = new_world();
    let game = GameManager::create_game_session(&mut world, String::from("room"), 2, 50);
    assert_eq!(game.id(), 1);
    let state = world.get_component::<GameState>(game).unwrap();
    assert_eq!(state.session_id, "room");
    assert_eq!(state.max_players, 2);
    let p1 = world.create_entity();
    let p2 = world.create_entity();
    assert!(GameManager::join_player(&mut world, game, p1));
    assert!(GameManager::join_player(&mut world, game, p2));
    let p3 = world.create_entity();
    assert!(!GameManager::join_player(&mut world, game, p3));
    assert_eq!(world.get_component::<GameState>(game).unwrap().current_players, 2);
    assert!(!GameManager::join_player(&mut world, p1, p2));
}

#[test]
fn manager_starts_turns_and_records_actions() {
    let mut world = new_world();
    let p1 = world.create_entity();
    let p2 = world.create_entity();
    let game = GameManager::create_game_session(&mut world, String::from("s"), 2, 0);
    let turns = GameManager::start_turn_management(&mut world, game, vec![p1, p2], 45, 9);
    let tm = world.get_component::<TurnManager>(turns).unwrap();
    assert_eq!(tm.current_player, Some(p1));
    assert_eq!(tm.turn_time_limit, 45);
    assert_eq!(tm.turn_start_time, 9);
    let action = GameManager::record_action(
        &mut world,
        p1,
        ActionType::DrawCard,
        Some(String::from("top")),
        10,
    );
    let a = world.get_component::<GameAction>(action).unwrap();
    assert_eq!(a.player, p1);
    assert_eq!(a.data.as_deref(), Some("top"));
}

#[test]
fn management_system_advances_phases() {
    let mut world = new_world();
    let game = GameManager::create_game_session(&mut world, String::from("s"), 4, 0);
    let p1 = world.create_entity();
    let p2 = world.create_entity();
    GameManager::join_player(&mut world, game, p1);
    GameManager::join_player(&mut world, game, p2);
    let mut scheduler = SystemScheduler::new();
    scheduler.add_system(GameManagementSystem);
    scheduler.update(&mut world, 16);
    assert_eq!(world.get_component::<GameState>(game).unwrap().phase, GamePhase::Starting);
    scheduler.update(&mut world, 16);
    assert_eq!(world.get_component::<GameState>(game).unwrap().phase, GamePhase::Playing);
    scheduler.update(&mut world, 16);
    assert_eq!(world.get_component::<GameState>(game).unwrap().phase, GamePhase::Playing);
}

#[test]
fn action_processing_consumes_every_action() {
    let mut world = new_world();
    let p = world.create_entity();
    GameManager::record_action(&mut world, p, ActionType::MoveCard, None, 1);
    GameManager::record_action(&mut world, p, ActionType::EndTurn, None, 2);
    assert_eq!(world.query::<GameAction>().len(), 2);
    let mut system = ActionProcessingSystem;
    let mut scheduler = SystemScheduler::new();
    scheduler.add_system(system);
    scheduler.update(&mut world, 16);
    assert_eq!(world.query::<GameAction>().len(), 0);
    system = ActionProcessingSystem;
    let _ = system;
}

#[test]
fn turn_system_advances_expired_turns() {
    let mut world = new_world();
    let p1 = world.create_entity();
    let p2 = world.create_entity();
    let turns = GameManager::start_turn_management(&mut world, p1, vec![p1, p2], 30, 100);
    let mut scheduler = SystemScheduler::new();
    scheduler.add_system(TurnManagementSystem { now: 120 });
    scheduler.update(&mut world, 16);
    assert_eq!(world.get_component::<TurnManager>(turns).unwrap().current_player, Some(p1));
    let mut late = SystemScheduler::new();
    late.add_system(TurnManagementSystem { now: 131 });
    late.update(&mut world, 16);
    let tm = world.get_component::<TurnManager>(turns).unwrap();
    assert_eq!(tm.current_player, Some(p2));
    assert_eq!(tm.turn_start_time, 131);
}

#[test]
fn rooms_admit_players_up_to_capacity() {
    let mut room = GameRoom::new(String::from("r1"), String::from("table"), 2, 42);
    assert_eq!(room.game_state, RoomState::Waiting);
    assert_eq!(room.created_at, 42);
    assert!(!room.is_full());
    assert!(room.add_player(String::from("alice")));
    assert!(!room.add_player(String::from("alice")));
    assert!(room.add_player(String::from("bob")));
    assert!(room.is_full());
    assert!(!room.add_player(String::from("carol")));
    assert!(room.remove_player("alice"));
    assert!(!room.remove_player("alice"));
    assert!(!room.is_full());
    assert_eq!(room.players, vec![String::from("bob")]);
}

#[test]
fn room_info_summarizes_a_room() {
    let mut room = GameRoom::new(String::from("r2"), String::from("lounge"), 3, 0);
    room.add_player(String::from("a"));
    let info = RoomInfo::of_room(&room);
    assert_eq!(info.id, "r2");
    assert_eq!(info.name, "lounge");
    assert_eq!(info.player_count, 1);
    assert_eq!(info.max_players, 3);
    assert_eq!(info.game_state, RoomState::Waiting);
}
