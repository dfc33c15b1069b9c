use snake_lobby::lobbies::{JoinLobbyError, Lobbies};
use snake_lobby::lobby::{
    LobbiesMsg, Lobby, LobbyCtrlMsg, LobbyMsg, LobbyStateView, Outgoing,
};
use snake_lobby::usernames::PlayerUserNames;
use snake_lobby::world::Direction;

fn registry_with(name: &str) -> Lobbies {
    let mut r = Lobbies::new();
    r.insert_if_missing(Lobby::new(name.to_string())).unwrap();
    r
}

fn participants(v: &LobbyStateView) -> Vec<(String, bool)> {
    match v {
        LobbyStateView::Prep(ps) => ps.iter().map(|p| (p.user_name.clone(), p.vote_start)).collect(),
        _ => panic!("not in preparation"),
    }
}

fn running_counter(v: &LobbyStateView) -> u32 {
    match v {
        LobbyStateView::Running(r) => r.counter,
        _ => panic!("not running"),
    }
}

fn to(out: &[Outgoing]) -> Vec<u16> {
    out.iter().map(|o| o.to).collect()
}

#[test]
fn create_twice_is_refused() {
    let mut r = registry_with("L");
    let e = r.insert_if_missing(Lobby::new("L".to_string())).unwrap_err();
    assert_eq!(e, "Lobby with this name already exists");
    assert_eq!(r.lobby_names(), vec!["L".to_string()]);
    assert!(r.get(&"L".to_string()).unwrap().is_bound());
}

#[test]
fn lonely_player_starts_a_game() {
    let mut r = registry_with("L");
    let j = r.join_con("L".to_string(), 1, "a".to_string()).unwrap();
    assert_eq!(participants(&j.state), vec![("a".to_string(), false)]);
    assert!(j.broadcast.is_empty());
    let v = r.vote_start(1, true, "m1".to_string()).unwrap();
    assert!(v.began);
    assert_eq!(to(&v.broadcast), vec![1]);
    assert_eq!(v.broadcast[0].id, Some("m1".to_string()));
    let out = r.handle_message(&"L".to_string(), LobbyMsg::Advance);
    assert_eq!(out.len(), 1);
    assert_eq!(running_counter(&out[0].state), 1);
    match &out[0].state {
        LobbyStateView::Running(run) => {
            assert!(run.domain.snake.is_some());
            assert!(run.domain.other_snakes.is_empty());
            assert_eq!(run.player_counter, 1);
        }
        _ => panic!("not running"),
    }
}

#[test]
fn two_players_start_once() {
    let mut r = registry_with("L");
    r.join_con("L".to_string(), 1, "a".to_string()).unwrap();
    let j = r.join_con("L".to_string(), 2, "b".to_string()).unwrap();
    assert_eq!(to(&j.broadcast), vec![1]);
    assert_eq!(participants(&j.broadcast[0].state).len(), 2);
    let v = r.vote_start(1, true, "x".to_string()).unwrap();
    assert!(!v.began);
    assert_eq!(to(&v.broadcast), vec![1, 2]);
    assert_eq!(v.broadcast[0].id, Some("x".to_string()));
    assert_eq!(v.broadcast[1].id, None);
    let v = r.vote_start(2, true, "y".to_string()).unwrap();
    assert!(v.began);
    assert!(r.vote_start(1, true, "z".to_string()).is_err());
    for o in &v.broadcast {
        match &o.state {
            LobbyStateView::Running(run) => {
                assert!(run.domain.snake.is_some());
                assert_eq!(run.domain.other_snakes.len(), 1);
            }
            _ => panic!("not running"),
        }
    }
}

#[test]
fn join_errors() {
    let mut r = registry_with("L");
    r.insert_if_missing(Lobby::new("M".to_string())).unwrap();
    assert!(matches!(r.join_con("X".to_string(), 1, "a".to_string()), Err(JoinLobbyError::NotFound)));
    assert!(!r.joined_any(1));
    r.join_con("L".to_string(), 1, "a".to_string()).unwrap();
    match r.join_con("M".to_string(), 1, "a".to_string()) {
        Err(JoinLobbyError::AlreadyJoined(n)) => assert_eq!(n, "L"),
        _ => panic!("expected AlreadyJoined"),
    }
    let again = r.join_con("L".to_string(), 1, "a".to_string()).unwrap();
    assert_eq!(participants(&again.state).len(), 1);
    r.vote_start(1, true, "v".to_string()).unwrap();
    assert!(matches!(
        r.join_con("L".to_string(), 2, "b".to_string()),
        Err(JoinLobbyError::AlreadyStarted)
    ));
    assert!(!r.joined_any(2));
}

#[test]
fn join_then_leave_restores_registry() {
    let mut r = registry_with("L");
    let names = r.lobby_names();
    r.join_con("L".to_string(), 5, "a".to_string()).unwrap();
    assert!(r.joined_any(5));
    assert_eq!(r.joined_lobby(5).unwrap().name, "L");
    let d = r.disjoin_con(5);
    assert!(d.ctrl.is_none());
    assert!(d.broadcast.is_empty());
    assert_eq!(r.lobby_names(), names);
    assert!(r.joined_lobby(5).is_none());
    assert!(!r.joined_any(5));
    assert!(!r.get(&"L".to_string()).unwrap().players.contains_key(5));
}

#[test]
fn disconnect_cleans_up() {
    let mut r = registry_with("L");
    let mut names = PlayerUserNames::new();
    names.try_insert("a".to_string(), 1).unwrap();
    r.join_con("L".to_string(), 1, "a".to_string()).unwrap();
    r.join_con("L".to_string(), 2, "b".to_string()).unwrap();
    let d = r.disjoin_con(1);
    names.clean_con(1);
    assert_eq!(to(&d.broadcast), vec![2]);
    assert!(!r.joined_any(1));
    assert!(!r.get(&"L".to_string()).unwrap().players.contains_key(1));
    assert!(names.try_insert("a".to_string(), 3).is_ok());
}

#[test]
fn last_leaver_removes_running_lobby() {
    let mut r = registry_with("L");
    r.join_con("L".to_string(), 1, "a".to_string()).unwrap();
    r.join_con("L".to_string(), 2, "b".to_string()).unwrap();
    r.vote_start(1, true, "p".to_string()).unwrap();
    r.vote_start(2, true, "q".to_string()).unwrap();
    assert!(r.disjoin_con(1).ctrl.is_none());
    let d = r.disjoin_con(2);
    let name = match d.ctrl {
        Some(LobbyCtrlMsg::LobbiesMsg(LobbiesMsg::RemoveLobby(n))) => n,
        _ => panic!("expected a removal request"),
    };
    assert_eq!(name, "L");
    assert!(r.remove_lobby(&name));
    assert!(r.lobby_names().is_empty());
    assert!(r.get(&name).is_none());
    assert!(!r.remove_lobby(&name));
}

#[test]
fn remove_lobby_unmaps_players() {
    let mut r = registry_with("L");
    r.insert_if_missing(Lobby::new("M".to_string())).unwrap();
    r.join_con("L".to_string(), 1, "a".to_string()).unwrap();
    r.join_con("M".to_string(), 2, "b".to_string()).unwrap();
    assert!(r.remove_lobby(&"L".to_string()));
    assert!(!r.joined_any(1));
    assert!(r.joined_any(2));
    assert_eq!(r.lobby_names(), vec!["M".to_string()]);
}

#[test]
fn lobby_state_follows_membership() {
    let mut r = registry_with("L");
    assert!(r.lobby_state(1).is_none());
    r.join_con("L".to_string(), 1, "a".to_string()).unwrap();
    r.vote_start(1, false, "v".to_string()).unwrap();
    assert_eq!(participants(&r.lobby_state(1).unwrap()), vec![("a".to_string(), false)]);
    assert!(r.vote_start(9, true, "w".to_string()).is_err());
}

#[test]
fn steering_reaches_own_snake() {
    let mut r = registry_with("L");
    r.join_con("L".to_string(), 1, "a".to_string()).unwrap();
    r.set_con_direction(1, Direction::Left);
    r.vote_start(1, true, "v".to_string()).unwrap();
    r.set_con_direction(1, Direction::Left);
    let out = r.handle_message(&"L".to_string(), LobbyMsg::Advance);
    match &out[0].state {
        LobbyStateView::Running(run) => {
            let s = run.domain.snake.as_ref().unwrap();
            assert_eq!(s.direction, Direction::Left);
            assert_eq!(s.iter_vertices()[0].x, -1);
        }
        _ => panic!("not running"),
    }
}

#[test]
fn ticks_outside_a_game_are_dropped() {
    let mut r = registry_with("L");
    r.join_con("L".to_string(), 1, "a".to_string()).unwrap();
    assert!(r.handle_message(&"L".to_string(), LobbyMsg::Advance).is_empty());
    assert!(r.handle_message(&"Q".to_string(), LobbyMsg::Advance).is_empty());
}

#[test]
fn stop_terminates_running_lobby() {
    let mut l = Lobby::new("L".to_string()).set_ch();
    l.join_con(1, "a".to_string()).unwrap();
    l.vote_start(1, true).unwrap();
    assert!(l.is_ticking());
    l.stop();
    assert!(!l.is_ticking());
    assert!(!l.is_bound());
    assert!(matches!(l.state(1), LobbyStateView::Terminated));
    l.stop();
    assert!(l.join_con(2, "b".to_string()).is_err());
}

#[test]
fn unbound_lobby_cannot_begin() {
    let mut l = Lobby::new("L".to_string());
    l.join_con(1, "a".to_string()).unwrap();
    assert!(l.vote_start(1, true).is_err());
    assert!(!l.is_ticking());
    assert!(l.begin().is_err());
}

#[test]
fn usernames_are_unique() {
    let mut n = PlayerUserNames::new();
    assert!(n.try_insert("a".to_string(), 1).is_ok());
    assert!(n.try_insert("a".to_string(), 1).is_ok());
    assert!(n.try_insert("a".to_string(), 2).is_err());
    assert!(n.try_insert("b".to_string(), 1).is_ok());
    assert_eq!(n.user_name(1), Some("b".to_string()));
    assert!(n.try_insert("a".to_string(), 2).is_ok());
    n.clean_con(2);
    assert_eq!(n.user_name(2), None);
    assert!(n.try_insert("a".to_string(), 3).is_ok());
}

#[test]
fn lobby_errors_say_illegal_state() {
    let mut l = Lobby::new("L".to_string()).set_ch();
    l.join_con(1, "a".to_string()).unwrap();
    assert_eq!(l.set_con_direction(1, Direction::Left).unwrap_err(), "Illegal state");
    l.vote_start(1, true).unwrap();
    assert_eq!(l.join_con(2, "b".to_string()).unwrap_err(), "Illegal state");
    assert_eq!(l.vote_start(1, false).unwrap_err(), "Illegal state");
    assert_eq!(l.begin().unwrap_err(), "Illegal state");
    let mut u = Lobby::new("U".to_string());
    assert_eq!(u.begin().unwrap_err(), "No control channel");
}

#[test]
fn broadcasts_reach_each_player_once() {
    let mut l = Lobby::new("L".to_string()).set_ch();
    for c in [3u16, 1, 2] {
        l.join_con(c, format!("p{c}")).unwrap();
    }
    assert_eq!(to(&l.broadcast_state()), vec![1, 2, 3]);
    assert_eq!(to(&l.broadcast_state_except(2)), vec![1, 3]);
    let pinned = l.pinned_broadcast_state("x".to_string(), 3);
    assert_eq!(to(&pinned), vec![1, 2, 3]);
    let ids: Vec<Option<String>> = pinned.iter().map(|o| o.id.clone()).collect();
    assert_eq!(ids, vec![None, None, Some("x".to_string())]);
}

#[test]
fn leaving_a_game_keeps_counter_and_drops_food() {
    let mut r = registry_with("L");
    r.join_con("L".to_string(), 1, "a".to_string()).unwrap();
    r.join_con("L".to_string(), 2, "b".to_string()).unwrap();
    r.vote_start(1, true, "p".to_string()).unwrap();
    r.vote_start(2, true, "q".to_string()).unwrap();
    r.handle_message(&"L".to_string(), LobbyMsg::Advance);
    let d = r.disjoin_con(2);
    assert_eq!(to(&d.broadcast), vec![1]);
    match &d.broadcast[0].state {
        LobbyStateView::Running(run) => {
            assert_eq!(run.counter, 1);
            assert!(run.domain.other_snakes.is_empty());
            for p in [(1, 2), (1, 3), (1, 4)] {
                assert!(run.domain.foods.iter().any(|f| (f.x, f.y) == p));
            }
        }
        _ => panic!("not running"),
    }
}
