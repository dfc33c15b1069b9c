use snake_lobby::hub::{needs_id, Action, ConState, Hub, JoinLobbyDecline, WsClientMsg, WsServerMsg};
use snake_lobby::lobby::{LobbiesMsg, LobbyCtrlMsg, LobbyStateView};
use snake_lobby::world::Direction;

fn ask(hub: &mut Hub, con: u16, st: &mut ConState, msg: WsClientMsg) -> snake_lobby::hub::Reply {
    hub.handle_request(con, st, "id".to_string(), msg)
}

fn is_ack(r: &Option<WsServerMsg>) -> bool {
    matches!(r, Some(WsServerMsg::Ack))
}

#[test]
fn steering_needs_no_id() {
    assert!(!needs_id(&WsClientMsg::SetDirection(Direction::Up)));
    assert!(needs_id(&WsClientMsg::LeaveLobby));
    assert!(needs_id(&WsClientMsg::UserName));
}

#[test]
fn lonely_player_session() {
    let mut hub = Hub::new();
    let mut st = ConState::new();
    assert!(is_ack(&ask(&mut hub, 1, &mut st, WsClientMsg::SetUserName("a".to_string())).response));
    let r = ask(&mut hub, 1, &mut st, WsClientMsg::CreateLobby("L".to_string()));
    assert!(is_ack(&r.response));
    assert!(matches!(r.action, Action::SpawnLobbyLoop(ref n) if n == "L"));
    let r = ask(&mut hub, 1, &mut st, WsClientMsg::JoinLobby("L".to_string()));
    match r.response {
        Some(WsServerMsg::LobbyState(LobbyStateView::Prep(ps))) => {
            assert_eq!(ps.len(), 1);
            assert_eq!(ps[0].user_name, "a");
            assert!(!ps[0].vote_start);
        }
        _ => panic!("expected the lobby state"),
    }
    let r = ask(&mut hub, 1, &mut st, WsClientMsg::VoteStart(true));
    assert!(r.response.is_none());
    assert!(matches!(r.action, Action::StartTicking(ref n) if n == "L"));
    assert_eq!(r.broadcast[0].id, Some("id".to_string()));
    let out = hub.tick(&"L".to_string());
    match &out[0].state {
        LobbyStateView::Running(run) => {
            assert!(run.counter >= 1);
            assert!(run.domain.snake.is_some());
            assert!(run.domain.other_snakes.is_empty());
        }
        _ => panic!("not running"),
    }
}

#[test]
fn rename_forbidden_when_joined() {
    let mut hub = Hub::new();
    let mut st = ConState::new();
    ask(&mut hub, 1, &mut st, WsClientMsg::SetUserName("a".to_string()));
    ask(&mut hub, 1, &mut st, WsClientMsg::CreateLobby("L".to_string()));
    ask(&mut hub, 1, &mut st, WsClientMsg::JoinLobby("L".to_string()));
    let r = ask(&mut hub, 1, &mut st, WsClientMsg::SetUserName("b".to_string()));
    assert!(matches!(r.response, Some(WsServerMsg::ForbiddenWhenJoined)));
    match ask(&mut hub, 1, &mut st, WsClientMsg::UserName).response {
        Some(WsServerMsg::UserName(u)) => assert_eq!(u, Some("a".to_string())),
        _ => panic!("expected the user name"),
    }
}

#[test]
fn username_occupied() {
    let mut hub = Hub::new();
    let mut a = ConState::new();
    let mut b = ConState::new();
    ask(&mut hub, 1, &mut a, WsClientMsg::SetUserName("a".to_string()));
    let r = ask(&mut hub, 2, &mut b, WsClientMsg::SetUserName("a".to_string()));
    assert!(matches!(r.response, Some(WsServerMsg::UserNameOccupied)));
    assert!(b.un.is_none());
}

#[test]
fn join_needs_a_name() {
    let mut hub = Hub::new();
    let mut st = ConState::new();
    ask(&mut hub, 1, &mut st, WsClientMsg::CreateLobby("L".to_string()));
    let r = ask(&mut hub, 1, &mut st, WsClientMsg::JoinLobby("L".to_string()));
    assert!(matches!(r.response, Some(WsServerMsg::JoinLobbyDecline(JoinLobbyDecline::UserNameNotSet))));
    st.un = Some("a".to_string());
    let r = ask(&mut hub, 1, &mut st, WsClientMsg::JoinLobby("Q".to_string()));
    assert!(matches!(r.response, Some(WsServerMsg::JoinLobbyDecline(JoinLobbyDecline::NotFound))));
}

#[test]
fn create_existing_lobby_reports_error() {
    let mut hub = Hub::new();
    let mut st = ConState::new();
    ask(&mut hub, 1, &mut st, WsClientMsg::CreateLobby("L".to_string()));
    let r = ask(&mut hub, 1, &mut st, WsClientMsg::CreateLobby("L".to_string()));
    assert!(matches!(r.response, Some(WsServerMsg::Error(ref m)) if m == "Lobby with this name already exists"));
    match ask(&mut hub, 1, &mut st, WsClientMsg::LobbyList).response {
        Some(WsServerMsg::LobbyList(ns)) => assert_eq!(ns, vec!["L".to_string()]),
        _ => panic!("expected the list"),
    }
}

#[test]
fn vote_outside_lobby_is_an_error() {
    let mut hub = Hub::new();
    let mut st = ConState::new();
    let r = ask(&mut hub, 1, &mut st, WsClientMsg::VoteStart(true));
    assert!(matches!(r.response, Some(WsServerMsg::Error(_))));
}

#[test]
fn abrupt_disconnect_cleans_up() {
    let mut hub = Hub::new();
    let mut st = ConState::new();
    ask(&mut hub, 1, &mut st, WsClientMsg::SetUserName("a".to_string()));
    ask(&mut hub, 1, &mut st, WsClientMsg::CreateLobby("L".to_string()));
    ask(&mut hub, 1, &mut st, WsClientMsg::JoinLobby("L".to_string()));
    hub.disconnect(1);
    assert!(!hub.lobbies.joined_any(1));
    assert!(!hub.lobbies.get(&"L".to_string()).unwrap().players.contains_key(1));
    let mut other = ConState::new();
    assert!(is_ack(&ask(&mut hub, 2, &mut other, WsClientMsg::SetUserName("a".to_string())).response));
}

#[test]
fn last_leavers_remove_running_lobby() {
    let mut hub = Hub::new();
    let mut a = ConState::new();
    let mut b = ConState::new();
    ask(&mut hub, 1, &mut a, WsClientMsg::SetUserName("a".to_string()));
    ask(&mut hub, 2, &mut b, WsClientMsg::SetUserName("b".to_string()));
    ask(&mut hub, 1, &mut a, WsClientMsg::CreateLobby("L".to_string()));
    ask(&mut hub, 1, &mut a, WsClientMsg::JoinLobby("L".to_string()));
    let r = ask(&mut hub, 2, &mut b, WsClientMsg::JoinLobby("L".to_string()));
    assert_eq!(r.broadcast.len(), 1);
    assert_eq!(r.broadcast[0].to, 1);
    ask(&mut hub, 1, &mut a, WsClientMsg::VoteStart(true));
    ask(&mut hub, 2, &mut b, WsClientMsg::VoteStart(true));
    hub.steer(1, Direction::Left);
    let r = ask(&mut hub, 1, &mut a, WsClientMsg::LeaveLobby);
    assert!(is_ack(&r.response));
    assert!(matches!(r.action, Action::Nothing));
    let r = ask(&mut hub, 2, &mut b, WsClientMsg::LeaveLobby);
    let name = match r.action {
        Action::Control(LobbyCtrlMsg::LobbiesMsg(LobbiesMsg::RemoveLobby(n))) => n,
        _ => panic!("expected a removal request"),
    };
    assert!(hub.remove_lobby(&name));
    assert!(hub.lobbies.lobby_names().is_empty());
}

#[test]
fn vote_outside_lobby_says_so() {
    let mut hub = Hub::new();
    let mut st = ConState::new();
    let r = ask(&mut hub, 1, &mut st, WsClientMsg::VoteStart(true));
    assert!(matches!(r.response, Some(WsServerMsg::Error(ref m)) if m == "lobby does not exist"));
    assert!(r.broadcast.is_empty());
}

#[test]
fn tick_reaches_every_player_once() {
    let mut hub = Hub::new();
    let mut a = ConState::new();
    let mut b = ConState::new();
    ask(&mut hub, 1, &mut a, WsClientMsg::SetUserName("a".to_string()));
    ask(&mut hub, 2, &mut b, WsClientMsg::SetUserName("b".to_string()));
    ask(&mut hub, 1, &mut a, WsClientMsg::CreateLobby("L".to_string()));
    ask(&mut hub, 1, &mut a, WsClientMsg::JoinLobby("L".to_string()));
    ask(&mut hub, 2, &mut b, WsClientMsg::JoinLobby("L".to_string()));
    assert!(hub.tick(&"L".to_string()).is_empty());
    ask(&mut hub, 1, &mut a, WsClientMsg::VoteStart(true));
    let r = ask(&mut hub, 2, &mut b, WsClientMsg::VoteStart(true));
    let ids: Vec<(u16, Option<String>)> = r.broadcast.iter().map(|o| (o.to, o.id.clone())).collect();
    assert_eq!(ids, vec![(1, None), (2, Some("id".to_string()))]);
    let out = hub.tick(&"L".to_string());
    let tos: Vec<u16> = out.iter().map(|o| o.to).collect();
    assert_eq!(tos, vec![1, 2]);
    hub.steer(2, Direction::Right);
    let out = hub.tick(&"L".to_string());
    match &out[1].state {
        LobbyStateView::Running(run) => {
            assert_eq!(run.counter, 2);
            assert_eq!(run.domain.snake.as_ref().unwrap().direction, Direction::Right);
        }
        _ => panic!("not running"),
    }
}
