use skate_game::game::Game;
use skate_game::registry::Registry;
use skate_game::types::GameUser;

fn user(id: i64, name: &str) -> GameUser {
    GameUser { id, first_name: name.to_owned(), username: Some("handle".to_owned()) }
}

#[test]
fn creation_is_lazy_and_idempotent() {
    let mut reg = Registry::new();
    assert_eq!(reg.num_games(), 0);
    {
        let g = reg.get_or_create("chat-1".to_owned());
        assert!(!g.started());
        g.add_trick(&user(1, "Alice"), "kickflip".to_owned()).unwrap();
    }
    assert_eq!(reg.num_games(), 1);
    // the same key finds the same game again
    {
        let g = reg.get_or_create("chat-1".to_owned());
        assert!(g.started());
        assert_eq!(g.num_participants(), 1);
    }
    assert_eq!(reg.num_games(), 1);
}

#[test]
fn sessions_never_interact() {
    let mut reg = Registry::new();
    reg.get_or_create("chat-1".to_owned()).add_trick(&user(1, "Alice"), "one".to_owned()).unwrap();
    {
        let other = reg.get_or_create("chat-2".to_owned());
        assert!(!other.started());
        assert_eq!(other.num_participants(), 0);
    }
    assert_eq!(reg.num_games(), 2);
    // a reset of one session leaves the other alone
    reg.get_or_create("chat-1".to_owned()).reset();
    assert!(!reg.get_or_create("chat-1".to_owned()).started());
    assert_eq!(reg.num_games(), 2);
}

#[test]
fn fresh_games_start_empty() {
    let g = Game::default();
    assert!(!g.started());
    assert!(g.game_message().is_none());
    assert_eq!(g.num_participants(), 0);
    assert!(g.trick_by_number(1).is_none());
    assert!(g.participant_by_index(0).is_none());
}
