use vstd::prelude::*;

use crate::con_map::Con;
use crate::lobbies::{JoinLobbyError, Lobbies};
use crate::lobby::{delivers, Lobby, LobbiesMsg, LobbyCtrlMsg, LobbyMsg, LobbyStateView, Outgoing};
use crate::state::{all_voted, PrepLobbyState, RunningLobbyState};
use crate::usernames::PlayerUserNames;
use crate::world::Direction;

verus! {

/// A request of a client.
#[derive(Debug)]
pub enum WsClientMsg {
    SetUserName(String),
    UserName,
    CreateLobby(String),
    JoinLobby(String),
    LeaveLobby,
    LobbyList,
    VoteStart(bool),
    SetDirection(Direction),
}

/// Why a join was refused, as told to the client.
#[derive(Debug)]
pub enum JoinLobbyDecline {
    NotFound,
    AlreadyJoined(String),
    AlreadyStarted,
    UserNameNotSet,
}

/// A message to a client.
#[derive(Debug)]
pub enum WsServerMsg {
    Ack,
    Error(String),
    UserName(Option<String>),
    UserNameOccupied,
    ForbiddenWhenJoined,
    LobbyList(Vec<String>),
    LobbyState(LobbyStateView),
    JoinLobbyDecline(JoinLobbyDecline),
}

/// What the host is to do after a request, beside sending messages.
#[derive(Debug)]
pub enum Action {
    Nothing,
    /// A lobby of this name was created: start its control loop.
    SpawnLobbyLoop(String),
    /// The game of this lobby started: start its tick driver.
    StartTicking(String),
    /// Send this on the control channel of the lobby it names.
    Control(LobbyCtrlMsg),
}

/// The answer to a request: state messages (each addressed, some carrying the request's
/// id), then a response to the requester with the id, if any.
#[derive(Debug)]
pub struct Reply {
    pub broadcast: Vec<Outgoing>,
    pub response: Option<WsServerMsg>,
    pub action: Action,
}

/// What a connection knows of itself.
#[derive(Debug)]
pub struct ConState {
    pub un: Option<String>,
}

impl ConState {
    pub fn new() -> (r: ConState)
        ensures
            r.un is None,
    {
        ConState { un: None }
    }
}

/// Whether a request must carry an id: all do but steering.
pub open spec fn spec_needs_id(msg: WsClientMsg) -> bool {
    !(msg is SetDirection)
}

pub fn needs_id(msg: &WsClientMsg) -> (r: bool)
    ensures
        r == spec_needs_id(*msg),
{
    match msg {
        WsClientMsg::SetDirection(_) => false,
        _ => true,
    }
}

/// The process-wide state: the lobbies and the claimed user names.
#[derive(Debug)]
pub struct Hub {
    pub lobbies: Lobbies,
    pub user_names: PlayerUserNames,
}

impl Hub {
    /// `new` is `old` after `con` left its lobby, if it was in one: the remaining players
    /// are each sent the lobby's state once, and when the last player left a running game,
    /// the lobby's removal is asked on its control channel.
    pub open spec fn left(old: Hub, new: Hub, con: Con, r: Reply) -> bool {
        &&& !new.lobbies.con_to_lobby@.contains_key(con)
        &&& !old.lobbies.con_to_lobby@.contains_key(con) ==> new.lobbies == old.lobbies && r.broadcast@.len()
            == 0 && r.action is Nothing
        &&& old.lobbies.con_to_lobby@.contains_key(con) ==> {
            let i = old.lobbies.index_named(old.lobbies.con_to_lobby@[con]@);
            &&& Lobbies::leave_effect(old.lobbies, new.lobbies, con)
            &&& delivers(new.lobbies.lobbies@[i], r.broadcast@, None, None, None)
            &&& r.action is Control == (old.lobbies.lobbies@[i].state is Running
                && new.lobbies.lobbies@[i].players@.len() == 0)
            &&& (r.action matches Action::Control(m) ==> m matches LobbyCtrlMsg::LobbiesMsg(
                LobbiesMsg::RemoveLobby(n),
            ) && n@ == old.lobbies.con_to_lobby@[con]@)
            &&& !(r.action is Control) ==> r.action is Nothing
        }
    }

    pub open spec fn wf(&self) -> bool {
        self.lobbies.wf() && self.user_names.wf()
    }

    pub fn new() -> (r: Hub)
        ensures
            r.wf(),
            r.lobbies.lobbies@.len() == 0,
            r.lobbies.con_to_lobby@ == Map::<Con, String>::empty(),
            r.user_names.by_con@ == Map::<Con, String>::empty(),
    {
        Hub { lobbies: Lobbies::new(), user_names: PlayerUserNames::new() }
    }

    /// Answers request `msg` of connection `con`, whose id is `id`.
    ///
    /// Creating a lobby acknowledges or reports the existing name; renaming is refused
    /// while in a lobby or when another connection holds the name; joining needs a user
    /// name and reports each refusal; a vote outside a lobby or a game in preparation is
    /// an error; leaving always acknowledges.
    pub fn handle_request(&mut self, con: Con, state: &mut ConState, id: String, msg: WsClientMsg) -> (r: Reply)
        requires
            old(self).wf(),
            spec_needs_id(msg),
        ensures
            final(self).wf(),
            match msg {
                WsClientMsg::CreateLobby(name) => {
                    &&& r.broadcast@.len() == 0
                    &&& !old(self).lobbies.names().contains(name@) ==> (r.response matches Some(WsServerMsg::Ack))
                        && (r.action matches Action::SpawnLobbyLoop(n) && n@ == name@)
                        && final(self).lobbies.names() == old(self).lobbies.names().push(name@)
                    &&& old(self).lobbies.names().contains(name@) ==> (r.response matches Some(WsServerMsg::Error(_)))
                        && *final(self) == *old(self)
                },
                WsClientMsg::SetUserName(name) => {
                    &&& r.broadcast@.len() == 0
                    &&& r.action is Nothing
                    &&& old(self).lobbies.con_to_lobby@.contains_key(con) ==> (r.response
                        matches Some(WsServerMsg::ForbiddenWhenJoined)) && *final(self) == *old(self)
                        && *final(state) == *old(state)
                    &&& !old(self).lobbies.con_to_lobby@.contains_key(con) && old(self).user_names.held_by_other(
                        name@,
                        con,
                    ) ==> (r.response matches Some(WsServerMsg::UserNameOccupied)) && *final(self) == *old(self)
                        && *final(state) == *old(state)
                    &&& !old(self).lobbies.con_to_lobby@.contains_key(con) && !old(self).user_names.held_by_other(
                        name@,
                        con,
                    ) ==> (r.response matches Some(WsServerMsg::Ack)) && final(self).user_names.by_con@
                        == old(self).user_names.by_con@.insert(con, name) && final(state).un == Some(name)
                },
                WsClientMsg::UserName => {
                    &&& r.broadcast@.len() == 0
                    &&& (r.response matches Some(WsServerMsg::UserName(u)) && u == old(state).un)
                    &&& *final(self) == *old(self)
                },
                WsClientMsg::JoinLobby(name) => {
                    &&& r.action is Nothing
                    &&& old(state).un is None ==> (r.response matches Some(
                        WsServerMsg::JoinLobbyDecline(JoinLobbyDecline::UserNameNotSet),
                    )) && *final(self) == *old(self) && r.broadcast@.len() == 0
                    &&& old(state).un matches Some(un) ==> {
                        let joined = old(self).lobbies.con_to_lobby@.contains_key(con);
                        let i = old(self).lobbies.index_named(name@);
                        &&& joined && old(self).lobbies.con_to_lobby@[con]@ == name@ ==> (r.response matches Some(
                            WsServerMsg::LobbyState(v),
                        ) && old(self).lobbies.lobbies@[i].shows(con, v)) && *final(self) == *old(self)
                            && r.broadcast@.len() == 0
                        &&& joined && old(self).lobbies.con_to_lobby@[con]@ != name@ ==> (r.response
                            matches Some(WsServerMsg::JoinLobbyDecline(JoinLobbyDecline::AlreadyJoined(n)))
                            && n@ == old(self).lobbies.con_to_lobby@[con]@) && *final(self) == *old(self)
                            && r.broadcast@.len() == 0
                        &&& !joined && !old(self).lobbies.names().contains(name@) ==> (r.response matches Some(
                            WsServerMsg::JoinLobbyDecline(JoinLobbyDecline::NotFound),
                        )) && *final(self) == *old(self) && r.broadcast@.len() == 0
                        &&& !joined && old(self).lobbies.names().contains(name@) && !(old(
                            self,
                        ).lobbies.lobbies@[old(self).lobbies.index_named(name@)].state is Prep) ==> (r.response
                            matches Some(WsServerMsg::JoinLobbyDecline(JoinLobbyDecline::AlreadyStarted)))
                            && *final(self) == *old(self) && r.broadcast@.len() == 0
                        &&& !joined && old(self).lobbies.names().contains(name@) && old(
                            self,
                        ).lobbies.lobbies@[old(self).lobbies.index_named(name@)].state is Prep ==> (r.response
                            matches Some(WsServerMsg::LobbyState(v)) && final(self).lobbies.lobbies@[i].shows(
                            con,
                            v,
                        )) && Lobbies::join_effect(old(self).lobbies, final(self).lobbies, name@, con, un)
                            && delivers(final(self).lobbies.lobbies@[i], r.broadcast@, Some(con), None, None)
                    }
                },
                WsClientMsg::LobbyList => {
                    &&& r.broadcast@.len() == 0
                    &&& (r.response matches Some(WsServerMsg::LobbyList(ns)) && ns@.map_values(
                        |s: String| s@,
                    ) == old(self).lobbies.names())
                    &&& *final(self) == *old(self)
                },
                WsClientMsg::VoteStart(v) => {
                    &&& final(self).lobbies.con_to_lobby == old(self).lobbies.con_to_lobby
                    &&& final(self).lobbies.names() == old(self).lobbies.names()
                    &&& final(self).user_names == old(self).user_names
                    &&& !old(self).lobbies.con_to_lobby@.contains_key(con) ==> (r.response matches Some(
                        WsServerMsg::Error(m),
                    ) && m@ == "lobby does not exist"@) && *final(self) == *old(self) && r.broadcast@.len()
                        == 0
                    &&& old(self).lobbies.con_to_lobby@.contains_key(con) ==> {
                        let i = old(self).lobbies.index_named(old(self).lobbies.con_to_lobby@[con]@);
                        let l0 = old(self).lobbies.lobbies@[i];
                        let l1 = final(self).lobbies.lobbies@[i];
                        &&& Lobbies::replaced(old(self).lobbies, final(self).lobbies, i)
                        &&& l1.players == l0.players
                        &&& l0.state is Prep ==> {
                            let votes = l0.state->Prep_0.start_votes@.insert(con, v);
                            &&& r.response is None
                            &&& delivers(l1, r.broadcast@, None, Some(con), Some(id))
                            &&& l0.players@.contains_key(con)
                            &&& (r.action is StartTicking == l1.state is Running)
                            &&& (r.action matches Action::StartTicking(n) ==> n@
                                == old(self).lobbies.con_to_lobby@[con]@)
                            &&& (all_voted(votes) ==> l1.state is Running && exists|p: PrepLobbyState|
                                p.wf() && p.start_votes@ == votes && RunningLobbyState::laid_out(
                                    p,
                                    l1.state->Running_0,
                                ))
                            &&& (!all_voted(votes) ==> l1.state is Prep && l1.state->Prep_0.start_votes@
                                == votes)
                        }
                        &&& !(l0.state is Prep) ==> (r.response matches Some(WsServerMsg::Error(m)) && m@
                            == "Illegal state"@) && l1.state == l0.state && r.broadcast@.len() == 0
                    }
                },
                WsClientMsg::LeaveLobby => {
                    &&& (r.response matches Some(WsServerMsg::Ack))
                    &&& !final(self).lobbies.con_to_lobby@.contains_key(con)
                    &&& final(self).user_names == old(self).user_names
                    &&& Hub::left(*old(self), *final(self), con, r)
                },
                WsClientMsg::SetDirection(_) => true,
            },
    {
        match msg {
            WsClientMsg::CreateLobby(name) => {
                match self.lobbies.insert_if_missing(Lobby::new(name.clone())) {
                    Ok(()) => Reply {
                        broadcast: Vec::new(),
                        response: Some(WsServerMsg::Ack),
                        action: Action::SpawnLobbyLoop(name),
                    },
                    Err(m) => Reply { broadcast: Vec::new(), response: Some(WsServerMsg::Error(m)), action: Action::Nothing },
                }
            },
            WsClientMsg::SetUserName(name) => {
                let response = if self.lobbies.joined_any(con) {
                    WsServerMsg::ForbiddenWhenJoined
                } else {
                    match self.user_names.try_insert(name.clone(), con) {
                        Ok(()) => {
                            state.un = Some(name);
                            WsServerMsg::Ack
                        },
                        Err(()) => WsServerMsg::UserNameOccupied,
                    }
                };
                Reply { broadcast: Vec::new(), response: Some(response), action: Action::Nothing }
            },
            WsClientMsg::UserName => {
                let un = match &state.un {
                    Some(u) => Some(u.clone()),
                    None => None,
                };
                Reply { broadcast: Vec::new(), response: Some(WsServerMsg::UserName(un)), action: Action::Nothing }
            },
            WsClientMsg::JoinLobby(name) => {
                match &state.un {
                    None => Reply {
                        broadcast: Vec::new(),
                        response: Some(WsServerMsg::JoinLobbyDecline(JoinLobbyDecline::UserNameNotSet)),
                        action: Action::Nothing,
                    },
                    Some(un) => {
                        match self.lobbies.join_con(name, con, un.clone()) {
                            Ok(j) => Reply {
                                broadcast: j.broadcast,
                                response: Some(WsServerMsg::LobbyState(j.state)),
                                action: Action::Nothing,
                            },
                            Err(e) => {
                                let d = match e {
                                    JoinLobbyError::NotFound => JoinLobbyDecline::NotFound,
                                    JoinLobbyError::AlreadyJoined(n) => JoinLobbyDecline::AlreadyJoined(n),
                                    JoinLobbyError::AlreadyStarted => JoinLobbyDecline::AlreadyStarted,
                                };
                                Reply {
                                    broadcast: Vec::new(),
                                    response: Some(WsServerMsg::JoinLobbyDecline(d)),
                                    action: Action::Nothing,
                                }
                            },
                        }
                    },
                }
            },
            WsClientMsg::LobbyList => {
                let names = self.lobbies.lobby_names();
                Reply { broadcast: Vec::new(), response: Some(WsServerMsg::LobbyList(names)), action: Action::Nothing }
            },
            WsClientMsg::VoteStart(v) => {
                match self.lobbies.vote_start(con, v, id) {
                    Ok(voted) => {
                        let action = if voted.began {
                            match self.lobbies.joined_lobby(con) {
                                Some(l) => Action::StartTicking(l.name.clone()),
                                None => Action::Nothing,
                            }
                        } else {
                            Action::Nothing
                        };
                        Reply { broadcast: voted.broadcast, response: None, action }
                    },
                    Err(m) => Reply { broadcast: Vec::new(), response: Some(WsServerMsg::Error(m)), action: Action::Nothing },
                }
            },
            WsClientMsg::LeaveLobby => {
                let d = self.lobbies.disjoin_con(con);
                let action = match d.ctrl {
                    Some(c) => Action::Control(c),
                    None => Action::Nothing,
                };
                Reply { broadcast: d.broadcast, response: Some(WsServerMsg::Ack), action }
            },
            WsClientMsg::SetDirection(_) => Reply { broadcast: Vec::new(), response: None, action: Action::Nothing },
        }
    }

    /// Steers the snake of `con`; nothing is answered.
    pub fn steer(&mut self, con: Con, direction: Direction)
        requires
            old(self).wf(),
        ensures
            final(self).wf(),
            final(self).user_names == old(self).user_names,
            final(self).lobbies.con_to_lobby == old(self).lobbies.con_to_lobby,
            final(self).lobbies.names() == old(self).lobbies.names(),
            !old(self).lobbies.con_to_lobby@.contains_key(con) ==> *final(self) == *old(self),
            old(self).lobbies.con_to_lobby@.contains_key(con) ==> {
                let i = old(self).lobbies.index_named(old(self).lobbies.con_to_lobby@[con]@);
                let l0 = old(self).lobbies.lobbies@[i];
                let l1 = final(self).lobbies.lobbies@[i];
                &&& Lobbies::replaced(old(self).lobbies, final(self).lobbies, i)
                &&& l1.players == l0.players
                &&& (!(l0.state is Running) ==> l1.state == l0.state)
                &&& (l0.state is Running ==> l1.state is Running && RunningLobbyState::turned(
                    l0.state->Running_0,
                    l1.state->Running_0,
                    con,
                    direction,
                ))
            },
    {
        self.lobbies.set_con_direction(con, direction);
    }

    /// Cleans up after a closed connection: it leaves its lobby and its name is released.
    pub fn disconnect(&mut self, con: Con) -> (r: Reply)
        requires
            old(self).wf(),
        ensures
            final(self).wf(),
            !final(self).lobbies.con_to_lobby@.contains_key(con),
            !final(self).user_names.by_con@.contains_key(con),
            final(self).user_names.by_con@ == old(self).user_names.by_con@.remove(con),
            Hub::left(*old(self), *final(self), con, r),
            r.response is None,
    {
        let d = self.lobbies.disjoin_con(con);
        self.user_names.clean_con(con);
        let action = match d.ctrl {
            Some(c) => Action::Control(c),
            None => Action::Nothing,
        };
        Reply { broadcast: d.broadcast, response: None, action }
    }

    /// A tick of the lobby named `name`: the new states to send.
    pub fn tick(&mut self, name: &String) -> (r: Vec<Outgoing>)
        requires
            old(self).wf(),
        ensures
            final(self).wf(),
            final(self).user_names == old(self).user_names,
            final(self).lobbies.con_to_lobby == old(self).lobbies.con_to_lobby,
            final(self).lobbies.names() == old(self).lobbies.names(),
            !old(self).lobbies.names().contains(name@) ==> *final(self) == *old(self) && r@.len() == 0,
            old(self).lobbies.names().contains(name@) ==> {
                let i = old(self).lobbies.index_named(name@);
                let l0 = old(self).lobbies.lobbies@[i];
                let l1 = final(self).lobbies.lobbies@[i];
                &&& Lobbies::replaced(old(self).lobbies, final(self).lobbies, i)
                &&& l1.players == l0.players
                &&& (l0.state is Running && l0.state->Running_0.counter < u32::MAX ==> {
                    &&& l1.state is Running
                    &&& RunningLobbyState::ticked(l0.state->Running_0, l1.state->Running_0)
                    &&& delivers(l1, r@, None, None, None)
                })
                &&& (!(l0.state is Running && l0.state->Running_0.counter < u32::MAX) ==> l1.state
                    == l0.state && r@.len() == 0)
            },
    {
        self.lobbies.handle_message(name, LobbyMsg::Advance)
    }

    /// Removes a lobby on its own request; the result says whether it existed.
    pub fn remove_lobby(&mut self, name: &String) -> (r: bool)
        requires
            old(self).wf(),
        ensures
            final(self).wf(),
            r == old(self).lobbies.names().contains(name@),
            !final(self).lobbies.names().contains(name@),
            forall|c: Con| #[trigger]
                final(self).lobbies.con_to_lobby@.contains_key(c) ==> final(self).lobbies.con_to_lobby@[c]@
                    != name@,
            final(self).user_names == old(self).user_names,
    {
        self.lobbies.remove_lobby(name)
    }
}

} // verus!
