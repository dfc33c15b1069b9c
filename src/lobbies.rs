use vstd::prelude::*;
use vstd::string::StringExecFns;

use crate::con_map::{Con, ConMap};
use crate::lobby::{delivers, Lobby, LobbyConState, LobbyCtrlMsg, LobbyMsg, LobbyStateView, Outgoing};
use crate::state::{PrepLobbyState, RunningLobbyState};
use crate::world::Direction;

verus! {

/// Why a connection could not join a lobby.
#[derive(Debug)]
pub enum JoinLobbyError {
    /// The connection is in another lobby, named here.
    AlreadyJoined(String),
    NotFound,
    AlreadyStarted,
}

/// What a successful join hands back: the state for the new player, and the state for
/// each of the other players.
#[derive(Debug)]
pub struct Joined {
    pub state: LobbyStateView,
    pub broadcast: Vec<Outgoing>,
}

/// What leaving hands back: the state for the remaining players, and a message for the
/// lobby's control channel, if any.
#[derive(Debug)]
pub struct Departure {
    pub broadcast: Vec<Outgoing>,
    pub ctrl: Option<LobbyCtrlMsg>,
}

/// What a vote hands back: whether it started the game, and the state for every player.
#[derive(Debug)]
pub struct Voted {
    pub began: bool,
    pub broadcast: Vec<Outgoing>,
}

/// All live lobbies, and for each connection in one of them, that lobby's name.
///
/// The host keeps, beside each lobby here, its control loop; it starts one when
/// `insert_if_missing` succeeds and ends it when `remove_lobby` reports a removal.
#[derive(Debug)]
pub struct Lobbies {
    pub lobbies: Vec<Lobby>,
    pub con_to_lobby: ConMap<String>,
}

/// The names of a list of lobbies.
pub open spec fn names_of(ls: Seq<Lobby>) -> Seq<Seq<char>> {
    ls.map_values(|l: Lobby| l.name@)
}

impl Lobbies {
    pub open spec fn names(&self) -> Seq<Seq<char>> {
        names_of(self.lobbies@)
    }

    /// Every connection in the reverse index is a player of the lobby it names.
    pub open spec fn reverse_sound(&self) -> bool {
        forall|c: Con| #[trigger]
            self.con_to_lobby@.contains_key(c) ==> exists|i: int|
                0 <= i < self.lobbies@.len() && (#[trigger] self.lobbies@[i]).name@
                    == self.con_to_lobby@[c]@ && self.lobbies@[i].players@.contains_key(c)
    }

    /// Every player of a lobby is mapped back to exactly that lobby.
    pub open spec fn reverse_complete(&self) -> bool {
        forall|i: int, c: Con|
            0 <= i < self.lobbies@.len() && #[trigger] self.lobbies@[i].players@.contains_key(c)
                ==> self.con_to_lobby@.contains_key(c) && self.con_to_lobby@[c]@
                == self.lobbies@[i].name@
    }

    pub open spec fn lobby_ok(l: Lobby) -> bool {
        l.wf() && l.bound && !(l.state is Terminated)
    }

    pub open spec fn wf(&self) -> bool {
        &&& self.con_to_lobby.wf()
        &&& self.names().no_duplicates()
        &&& forall|i: int| 0 <= i < self.lobbies@.len() ==> Lobbies::lobby_ok(#[trigger] self.lobbies@[i])
        &&& self.reverse_sound()
        &&& self.reverse_complete()
    }

    /// The index of the lobby named `n`.
    pub open spec fn index_named(&self, n: Seq<char>) -> int {
        choose|i: int| 0 <= i < self.lobbies@.len() && (#[trigger] self.lobbies@[i]).name@ == n
    }

    pub proof fn lemma_index_named(&self, i: int)
        requires
            self.wf(),
            0 <= i < self.lobbies@.len(),
        ensures
            self.names().contains(self.lobbies@[i].name@),
            self.index_named(self.lobbies@[i].name@) == i,
    {
        let n = self.lobbies@[i].name@;
        assert(self.names()[i] == n);
        let j = self.index_named(n);
        assert(self.names()[j] == n);
    }

    pub fn new() -> (r: Lobbies)
        ensures
            r.wf(),
            r.lobbies@.len() == 0,
            r.con_to_lobby@ == Map::<Con, String>::empty(),
    {
        let r = Lobbies { lobbies: Vec::new(), con_to_lobby: ConMap::new() };
        assert(r.names() =~= Seq::<Seq<char>>::empty());
        r
    }

    /// Where the lobby named `name` stands, if any.
    fn find(&self, name: &String) -> (r: Option<usize>)
        requires
            self.wf(),
        ensures
            r is Some == self.names().contains(name@),
            r matches Some(i) ==> i < self.lobbies@.len() && self.lobbies@[i as int].name@ == name@
                && self.index_named(name@) == i,
    {
        let mut i: usize = 0;
        while i < self.lobbies.len()
            invariant
                self.wf(),
                i <= self.lobbies@.len(),
                forall|j: int| 0 <= j < i ==> (#[trigger] self.lobbies@[j]).name@ != name@,
            decreases self.lobbies@.len() - i,
        {
            if self.lobbies[i].name == *name {
                proof {
                    self.lemma_index_named(i as int);
                }
                return Some(i);
            }
            i = i + 1;
        }
        assert(!self.names().contains(name@)) by {
            if self.names().contains(name@) {
                let j = choose|j: int| 0 <= j < self.names().len() && self.names()[j] == name@;
                assert(self.lobbies@[j].name@ == name@);
            }
        }
        None
    }

    /// The names of all lobbies.
    pub fn lobby_names(&self) -> (r: Vec<String>)
        requires
            self.wf(),
        ensures
            r@.map_values(|s: String| s@) == self.names(),
    {
        let mut r: Vec<String> = Vec::new();
        let mut i: usize = 0;
        while i < self.lobbies.len()
            invariant
                i <= self.lobbies@.len(),
                r@.map_values(|s: String| s@) == self.names().subrange(0, i as int),
            decreases self.lobbies@.len() - i,
        {
            let ghost r0 = r@;
            r.push(self.lobbies[i].name.clone());
            proof {
                assert(r@.map_values(|s: String| s@) =~= r0.map_values(|s: String| s@).push(
                    self.names()[i as int],
                ));
                assert(r@.map_values(|s: String| s@) =~= self.names().subrange(0, i + 1));
            }
            i = i + 1;
        }
        assert(self.names().subrange(0, i as int) =~= self.names());
        r
    }

    /// The lobby named `name`.
    pub fn get(&self, name: &String) -> (r: Option<&Lobby>)
        requires
            self.wf(),
        ensures
            r is Some == self.names().contains(name@),
            r matches Some(l) ==> *l == self.lobbies@[self.index_named(name@)],
    {
        match self.find(name) {
            Some(i) => Some(&self.lobbies[i]),
            None => None,
        }
    }

    /// The lobby that `con` is in.
    pub fn joined_lobby(&self, con: Con) -> (r: Option<&Lobby>)
        requires
            self.wf(),
        ensures
            r is Some == self.con_to_lobby@.contains_key(con),
            r matches Some(l) ==> *l == self.lobbies@[self.index_named(self.con_to_lobby@[con]@)]
                && l.name@ == self.con_to_lobby@[con]@ && l.players@.contains_key(con),
    {
        match self.con_to_lobby.get(con) {
            Some(name) => {
                let found = self.find(name);
                match found {
                    Some(i) => {
                        proof {
                            let j = choose|j: int|
                                0 <= j < self.lobbies@.len() && (#[trigger] self.lobbies@[j]).name@
                                    == self.con_to_lobby@[con]@ && self.lobbies@[j].players@.contains_key(con);
                            self.lemma_index_named(j);
                        }
                        Some(&self.lobbies[i])
                    },
                    None => {
                        proof {
                            let i = choose|i: int|
                                0 <= i < self.lobbies@.len() && (#[trigger] self.lobbies@[i]).name@
                                    == self.con_to_lobby@[con]@ && self.lobbies@[i].players@.contains_key(con);
                            assert(self.names()[i] == name@);
                        }
                        None
                    },
                }
            },
            None => None,
        }
    }

    /// Whether `con` is in some lobby.
    pub fn joined_any(&self, con: Con) -> (r: bool)
        requires
            self.wf(),
        ensures
            r == self.con_to_lobby@.contains_key(con),
    {
        self.con_to_lobby.contains_key(con)
    }

    /// The lobby of `con`, as `con` sees it.
    pub fn lobby_state(&self, con: Con) -> (r: Option<LobbyStateView>)
        requires
            self.wf(),
        ensures
            r is Some == self.con_to_lobby@.contains_key(con),
            r matches Some(v) ==> self.lobbies@[self.index_named(self.con_to_lobby@[con]@)].shows(con, v),
    {
        match self.joined_lobby(con) {
            Some(l) => {
                proof {
                    let i = self.index_named(self.con_to_lobby@[con]@);
                    assert(Lobbies::lobby_ok(self.lobbies@[i]));
                }
                Some(l.state(con))
            },
            None => None,
        }
    }

    /// Adds a fresh lobby, with a control channel attached, unless one of its name exists.
    pub fn insert_if_missing(&mut self, lobby: Lobby) -> (r: Result<(), String>)
        requires
            old(self).wf(),
            lobby.is_fresh(),
        ensures
            final(self).wf(),
            r is Ok == !old(self).names().contains(lobby.name@),
            r is Ok ==> final(self).names() == old(self).names().push(lobby.name@),
            r is Ok ==> final(self).lobbies@.last().bound,
            r is Ok ==> final(self).lobbies@.last().players@ == Map::<Con, LobbyConState>::empty(),
            r is Ok ==> final(self).lobbies@.last().state is Prep,
            r is Ok ==> final(self).lobbies@.drop_last() == old(self).lobbies@,
            r matches Err(m) ==> m@ == "Lobby with this name already exists"@,
            r is Ok ==> final(self).con_to_lobby == old(self).con_to_lobby,
            r is Err ==> *final(self) == *old(self),
    {
        match self.find(&lobby.name) {
            Some(_) => Err(String::from_str("Lobby with this name already exists")),
            None => {
                let ghost o = self.lobbies@;
                let l = lobby.set_ch();
                self.lobbies.push(l);
                proof {
                    let n = self.lobbies@.len() - 1;
                    assert(self.lobbies@.drop_last() =~= o);
                    assert(self.names() =~= names_of(o).push(lobby.name@));
                    assert forall|i: int, j: int|
                        0 <= i < self.names().len() && 0 <= j < self.names().len() && i != j implies
                        self.names()[i] != self.names()[j] by {
                        if i < n && j < n {
                            assert(names_of(o)[i] != names_of(o)[j]);
                        } else if i < n {
                            assert(names_of(o)[i] == self.names()[i]);
                        } else if j < n {
                            assert(names_of(o)[j] == self.names()[j]);
                        }
                    }
                    assert forall|i: int| 0 <= i < self.lobbies@.len() implies Lobbies::lobby_ok(
                        #[trigger] self.lobbies@[i],
                    ) by {
                        if i < n {
                            assert(self.lobbies@[i] == o[i]);
                        }
                    }
                    assert forall|c: Con| #[trigger] self.con_to_lobby@.contains_key(c) implies exists|i: int|
                        0 <= i < self.lobbies@.len() && (#[trigger] self.lobbies@[i]).name@
                            == self.con_to_lobby@[c]@ && self.lobbies@[i].players@.contains_key(c) by {
                        let i = choose|i: int|
                            0 <= i < o.len() && (#[trigger] o[i]).name@ == self.con_to_lobby@[c]@
                                && o[i].players@.contains_key(c);
                        assert(self.lobbies@[i] == o[i]);
                    }
                    assert forall|i: int, c: Con|
                        0 <= i < self.lobbies@.len() && #[trigger] self.lobbies@[i].players@.contains_key(c) implies
                        self.con_to_lobby@.contains_key(c) && self.con_to_lobby@[c]@ == self.lobbies@[i].name@ by {
                        if i < n {
                            assert(self.lobbies@[i] == o[i]);
                        }
                    }
                }
                Ok(())
            },
        }
    }

    /// `new` is `old` with the lobby at `i` replaced by one of the same name.
    pub open spec fn replaced(old: Lobbies, new: Lobbies, i: int) -> bool {
        &&& 0 <= i < old.lobbies@.len()
        &&& new.lobbies@ == old.lobbies@.update(i, new.lobbies@[i])
        &&& new.lobbies@[i].name@ == old.lobbies@[i].name@
    }

    /// `new` is `old` after `con`, in no lobby, joined the lobby named `name` as `un`.
    pub open spec fn join_effect(old: Lobbies, new: Lobbies, name: Seq<char>, con: Con, un: String) -> bool {
        let i = old.index_named(name);
        &&& Lobbies::replaced(old, new, i)
        &&& new.lobbies@[i].players@ == old.lobbies@[i].players@.insert(con, LobbyConState { un })
        &&& new.lobbies@[i].state is Prep
        &&& old.lobbies@[i].state is Prep
        &&& new.lobbies@[i].state->Prep_0.start_votes@ == old.lobbies@[i].state->Prep_0.start_votes@.insert(
            con,
            false,
        )
        &&& new.con_to_lobby@ == old.con_to_lobby@.insert(con, new.con_to_lobby@[con])
        &&& new.con_to_lobby@[con]@ == name
    }

    /// `new` is `old` after `con` left its lobby.
    pub open spec fn leave_effect(old: Lobbies, new: Lobbies, con: Con) -> bool {
        let i = old.index_named(old.con_to_lobby@[con]@);
        &&& Lobbies::replaced(old, new, i)
        &&& new.lobbies@[i].players@ == old.lobbies@[i].players@.remove(con)
        &&& (old.lobbies@[i].state is Prep ==> new.lobbies@[i].state is Prep
            && new.lobbies@[i].state->Prep_0.start_votes@ == old.lobbies@[i].state->Prep_0.start_votes@.remove(
            con,
        ))
        &&& new.con_to_lobby@ == old.con_to_lobby@.remove(con)
    }

    proof fn lemma_replaced_names(old: Lobbies, new: Lobbies, i: int)
        requires
            old.wf(),
            Lobbies::replaced(old, new, i),
        ensures
            new.names() == old.names(),
    {
        assert(new.names() =~= old.names()) by {
            assert forall|j: int| 0 <= j < new.names().len() implies new.names()[j] == old.names()[j] by {
                if j != i {
                    assert(new.lobbies@[j] == old.lobbies@[j]);
                }
            }
        }
    }

    /// Replacing a lobby by one with the same players keeps the registry sound.
    proof fn lemma_same_players(old: Lobbies, new: Lobbies, i: int)
        requires
            old.wf(),
            Lobbies::replaced(old, new, i),
            new.lobbies@[i].players@ == old.lobbies@[i].players@,
            Lobbies::lobby_ok(new.lobbies@[i]),
            new.con_to_lobby == old.con_to_lobby,
        ensures
            new.wf(),
            new.names() == old.names(),
    {
        Lobbies::lemma_replaced_names(old, new, i);
        assert forall|j: int| 0 <= j < new.lobbies@.len() implies Lobbies::lobby_ok(
            #[trigger] new.lobbies@[j],
        ) by {
            if j != i {
                assert(new.lobbies@[j] == old.lobbies@[j]);
            }
        }
        assert forall|c: Con| #[trigger] new.con_to_lobby@.contains_key(c) implies exists|j: int|
            0 <= j < new.lobbies@.len() && (#[trigger] new.lobbies@[j]).name@ == new.con_to_lobby@[c]@
                && new.lobbies@[j].players@.contains_key(c) by {
            let j = choose|j: int|
                0 <= j < old.lobbies@.len() && (#[trigger] old.lobbies@[j]).name@ == old.con_to_lobby@[c]@
                    && old.lobbies@[j].players@.contains_key(c);
            assert(new.lobbies@[j].name@ == old.lobbies@[j].name@);
            assert(new.lobbies@[j].players@ == old.lobbies@[j].players@);
        }
        assert forall|j: int, c: Con|
            0 <= j < new.lobbies@.len() && #[trigger] new.lobbies@[j].players@.contains_key(c) implies
            new.con_to_lobby@.contains_key(c) && new.con_to_lobby@[c]@ == new.lobbies@[j].name@ by {
            assert(old.lobbies@[j].players@.contains_key(c));
        }
    }

    /// Two lobbies of a sound registry with the same name are the same lobby.
    proof fn lemma_name_unique(&self, i: int, j: int)
        requires
            self.wf(),
            0 <= i < self.lobbies@.len(),
            0 <= j < self.lobbies@.len(),
            self.lobbies@[i].name@ == self.lobbies@[j].name@,
        ensures
            i == j,
    {
        assert(self.names()[i] == self.names()[j]);
    }

    /// Lets `con`, with user name `un`, join the lobby named `lobby_name`.
    ///
    /// Asking again for the lobby one is in answers with its state; being in another
    /// lobby, naming no lobby, or naming one whose game has started is refused, and then
    /// nothing changes.
    pub fn join_con(&mut self, lobby_name: String, con: Con, un: String) -> (r: Result<Joined, JoinLobbyError>)
        requires
            old(self).wf(),
        ensures
            final(self).wf(),
            old(self).con_to_lobby@.contains_key(con) && old(self).con_to_lobby@[con]@ == lobby_name@
                ==> *final(self) == *old(self) && (r matches Ok(j) && old(self).lobbies@[old(self).index_named(
                lobby_name@,
            )].shows(con, j.state) && j.broadcast@.len() == 0),
            old(self).con_to_lobby@.contains_key(con) && old(self).con_to_lobby@[con]@ != lobby_name@
                ==> *final(self) == *old(self) && (r matches Err(JoinLobbyError::AlreadyJoined(n))
                && n@ == old(self).con_to_lobby@[con]@),
            !old(self).con_to_lobby@.contains_key(con) && !old(self).names().contains(lobby_name@)
                ==> *final(self) == *old(self) && (r matches Err(JoinLobbyError::NotFound)),
            !old(self).con_to_lobby@.contains_key(con) && old(self).names().contains(lobby_name@)
                && !(old(self).lobbies@[old(self).index_named(lobby_name@)].state is Prep) ==> *final(self)
                == *old(self) && (r matches Err(JoinLobbyError::AlreadyStarted)),
            !old(self).con_to_lobby@.contains_key(con) && old(self).names().contains(lobby_name@)
                && old(self).lobbies@[old(self).index_named(lobby_name@)].state is Prep ==> {
                let i = old(self).index_named(lobby_name@);
                &&& Lobbies::join_effect(*old(self), *final(self), lobby_name@, con, un)
                &&& r matches Ok(j)
                &&& final(self).lobbies@[i].shows(con, j.state)
                &&& delivers(final(self).lobbies@[i], j.broadcast@, Some(con), None, None)
            },
    {
        match self.con_to_lobby.get(con) {
            Some(joined) => {
                if *joined == lobby_name {
                    match self.joined_lobby(con) {
                        Some(l) => {
                            proof {
                                let i = self.index_named(self.con_to_lobby@[con]@);
                                assert(Lobbies::lobby_ok(self.lobbies@[i]));
                            }
                            let state = l.state(con);
                            Ok(Joined { state, broadcast: Vec::new() })
                        },
                        None => Err(JoinLobbyError::NotFound),
                    }
                } else {
                    Err(JoinLobbyError::AlreadyJoined(joined.clone()))
                }
            },
            None => match self.find(&lobby_name) {
                None => Err(JoinLobbyError::NotFound),
                Some(i) => {
                    let ghost o = *self;
                    proof {
                        assert(Lobbies::lobby_ok(o.lobbies@[i as int]));
                    }
                    if !self.lobbies[i].state.is_prep() {
                        return Err(JoinLobbyError::AlreadyStarted);
                    }
                    let mut l = self.lobbies.remove(i);
                    let un_kept = un;
                    let res = l.join_con(con, un_kept);
                    self.lobbies.insert(i, l);
                    let name_kept = lobby_name.clone();
                    self.con_to_lobby.insert(con, name_kept);
                    proof {
                        let n = *self;
                        assert(n.lobbies@ =~= o.lobbies@.update(i as int, n.lobbies@[i as int]));
                        Lobbies::lemma_replaced_names(o, n, i as int);
                        assert forall|j: int| 0 <= j < n.lobbies@.len() implies Lobbies::lobby_ok(
                            #[trigger] n.lobbies@[j],
                        ) by {
                            if j != i {
                                assert(n.lobbies@[j] == o.lobbies@[j]);
                            }
                        }
                        assert forall|c: Con| #[trigger] n.con_to_lobby@.contains_key(c) implies exists|
                            j: int,
                        |
                            0 <= j < n.lobbies@.len() && (#[trigger] n.lobbies@[j]).name@
                                == n.con_to_lobby@[c]@ && n.lobbies@[j].players@.contains_key(c) by {
                            if c == con {
                                assert(n.lobbies@[i as int].name@ == n.con_to_lobby@[c]@);
                            } else {
                                let j = choose|j: int|
                                    0 <= j < o.lobbies@.len() && (#[trigger] o.lobbies@[j]).name@
                                        == o.con_to_lobby@[c]@ && o.lobbies@[j].players@.contains_key(c);
                                assert(n.lobbies@[j].name@ == o.lobbies@[j].name@);
                                assert(n.lobbies@[j].players@.contains_key(c));
                            }
                        }
                        assert forall|j: int, c: Con|
                            0 <= j < n.lobbies@.len() && #[trigger] n.lobbies@[j].players@.contains_key(c) implies
                            n.con_to_lobby@.contains_key(c) && n.con_to_lobby@[c]@ == n.lobbies@[j].name@ by {
                            if c != con {
                                assert(o.lobbies@[j].players@.contains_key(c));
                            } else if j != i {
                                assert(o.lobbies@[j].players@.contains_key(c));
                            }
                        }
                        assert(n.con_to_lobby@ =~= o.con_to_lobby@.insert(con, n.con_to_lobby@[con]));
                    }
                    let state = self.lobbies[i].state(con);
                    let broadcast = self.lobbies[i].broadcast_state_except(con);
                    proof {
                        assert forall|k: int| 0 <= k < broadcast@.len() implies o.lobbies@[i as int].players@.contains_key(
                            (#[trigger] broadcast@[k]).to,
                        ) by {
                            assert(self.lobbies@[i as int].players@.contains_key(broadcast@[k].to));
                        }
                        assert forall|c: Con| #[trigger]
                            o.lobbies@[i as int].players@.contains_key(c) implies exists|k: int|
                                0 <= k < broadcast@.len() && (#[trigger] broadcast@[k]).to == c by {
                            assert(c != con);
                            assert(self.lobbies@[i as int].players@.contains_key(c));
                        }
                    }
                    Ok(Joined { state, broadcast })
                },
            },
        }
    }

    /// Takes `con` out of its lobby, if it is in one. The other players of that lobby are
    /// to be sent its new state; when the last player left a running game, the control
    /// message asks for the lobby's removal.
    pub fn disjoin_con(&mut self, con: Con) -> (r: Departure)
        requires
            old(self).wf(),
        ensures
            final(self).wf(),
            !old(self).con_to_lobby@.contains_key(con) ==> *final(self) == *old(self)
                && r.broadcast@.len() == 0 && r.ctrl is None,
            old(self).con_to_lobby@.contains_key(con) ==> {
                let i = old(self).index_named(old(self).con_to_lobby@[con]@);
                &&& Lobbies::leave_effect(*old(self), *final(self), con)
                &&& delivers(final(self).lobbies@[i], r.broadcast@, None, None, None)
                &&& r.ctrl is Some == (old(self).lobbies@[i].state is Running
                    && final(self).lobbies@[i].players@.len() == 0)
                &&& (r.ctrl matches Some(m) ==> m matches LobbyCtrlMsg::LobbiesMsg(
                    crate::lobby::LobbiesMsg::RemoveLobby(n),
                ) && n@ == old(self).con_to_lobby@[con]@)
            },
    {
        let i = match self.con_to_lobby.get(con) {
            None => {
                return Departure { broadcast: Vec::new(), ctrl: None };
            },
            Some(name) => match self.find(name) {
                Some(i) => i,
                None => {
                    proof {
                        let j = choose|j: int|
                            0 <= j < self.lobbies@.len() && (#[trigger] self.lobbies@[j]).name@
                                == self.con_to_lobby@[con]@ && self.lobbies@[j].players@.contains_key(con);
                        assert(self.names()[j] == name@);
                    }
                    return Departure { broadcast: Vec::new(), ctrl: None };
                },
            },
        };
        let ghost o = *self;
        proof {
            assert(Lobbies::lobby_ok(o.lobbies@[i as int]));
        }
        self.con_to_lobby.remove(con);
        let mut l = self.lobbies.remove(i);
        let ctrl = l.disjoin_con(&con);
        self.lobbies.insert(i, l);
        proof {
            let n = *self;
            let name = o.con_to_lobby@[con]@;
            assert(n.lobbies@ =~= o.lobbies@.update(i as int, n.lobbies@[i as int]));
            Lobbies::lemma_replaced_names(o, n, i as int);
            assert forall|j: int| 0 <= j < n.lobbies@.len() implies Lobbies::lobby_ok(
                #[trigger] n.lobbies@[j],
            ) by {
                if j != i {
                    assert(n.lobbies@[j] == o.lobbies@[j]);
                }
            }
            assert forall|c: Con| #[trigger] n.con_to_lobby@.contains_key(c) implies exists|j: int|
                0 <= j < n.lobbies@.len() && (#[trigger] n.lobbies@[j]).name@ == n.con_to_lobby@[c]@
                    && n.lobbies@[j].players@.contains_key(c) by {
                let j = choose|j: int|
                    0 <= j < o.lobbies@.len() && (#[trigger] o.lobbies@[j]).name@ == o.con_to_lobby@[c]@
                        && o.lobbies@[j].players@.contains_key(c);
                assert(n.lobbies@[j].name@ == o.lobbies@[j].name@);
                assert(n.lobbies@[j].players@.contains_key(c));
            }
            assert forall|j: int, c: Con|
                0 <= j < n.lobbies@.len() && #[trigger] n.lobbies@[j].players@.contains_key(c) implies
                n.con_to_lobby@.contains_key(c) && n.con_to_lobby@[c]@ == n.lobbies@[j].name@ by {
                assert(o.lobbies@[j].players@.contains_key(c));
                if c == con {
                    assert(o.con_to_lobby@[con]@ == o.lobbies@[j].name@);
                    o.lemma_name_unique(i as int, j);
                }
            }
        }
        let broadcast = self.lobbies[i].broadcast_state();
        Departure { broadcast, ctrl }
    }

    /// Removes the lobby named `lobby_name`, if there is one: its game is stopped and
    /// none of its players is in a lobby any more. The result says whether it existed.
    pub fn remove_lobby(&mut self, lobby_name: &String) -> (r: bool)
        requires
            old(self).wf(),
        ensures
            final(self).wf(),
            r == old(self).names().contains(lobby_name@),
            !final(self).names().contains(lobby_name@),
            forall|c: Con| #[trigger]
                final(self).con_to_lobby@.contains_key(c) ==> final(self).con_to_lobby@[c]@ != lobby_name@,
            !r ==> *final(self) == *old(self),
            r ==> final(self).lobbies@ == old(self).lobbies@.remove(old(self).index_named(lobby_name@)),
            r ==> final(self).con_to_lobby@ == old(self).con_to_lobby@.restrict(
                old(self).con_to_lobby@.dom().difference(
                    old(self).lobbies@[old(self).index_named(lobby_name@)].players@.dom(),
                ),
            ),
    {
        let i = match self.find(lobby_name) {
            None => {
                proof {
                    assert forall|c: Con| #[trigger] self.con_to_lobby@.contains_key(c) implies self.con_to_lobby@[c]@
                        != lobby_name@ by {
                        let j = choose|j: int|
                            0 <= j < self.lobbies@.len() && (#[trigger] self.lobbies@[j]).name@
                                == self.con_to_lobby@[c]@ && self.lobbies@[j].players@.contains_key(c);
                        assert(self.names()[j] == self.con_to_lobby@[c]@);
                    }
                }
                return false;
            },
            Some(i) => i,
        };
        let ghost o = *self;
        let mut l = self.lobbies.remove(i);
        proof {
            assert(Lobbies::lobby_ok(l));
        }
        l.stop();
        let keys = l.players.keys();
        let mut k: usize = 0;
        let ghost gone = l.players@.dom();
        while k < keys.len()
            invariant
                k <= keys@.len(),
                keys@.to_set() == gone,
                o.wf(),
                i < o.lobbies@.len(),
                o.lobbies@[i as int].name@ == lobby_name@,
                self.lobbies@ == o.lobbies@.remove(i as int),
                l.players == o.lobbies@[i as int].players,
                self.con_to_lobby.wf(),
                self.con_to_lobby@ == o.con_to_lobby@.restrict(
                    o.con_to_lobby@.dom().difference(keys@.subrange(0, k as int).to_set()),
                ),
            decreases keys@.len() - k,
        {
            self.con_to_lobby.remove(keys[k]);
            proof {
                let a = keys@.subrange(0, k as int);
                assert(keys@.subrange(0, k + 1) =~= a.push(keys@[k as int]));
                a.lemma_push_to_set_commute(keys@[k as int]);
                assert(self.con_to_lobby@ =~= o.con_to_lobby@.restrict(
                    o.con_to_lobby@.dom().difference(keys@.subrange(0, k + 1).to_set()),
                ));
            }
            k = k + 1;
        }
        proof {
            assert(keys@.subrange(0, k as int) =~= keys@);
            let n = *self;
            let name = lobby_name@;
            assert(o.lobbies@[i as int].players@ == l.players@);
            assert(n.lobbies@ =~= o.lobbies@.remove(i as int));
            assert(n.names() =~= o.names().remove(i as int));
            assert forall|a: int, b: int|
                0 <= a < n.names().len() && 0 <= b < n.names().len() && a != b implies n.names()[a]
                != n.names()[b] by {
                let a0 = if a < i { a } else { a + 1 };
                let b0 = if b < i { b } else { b + 1 };
                assert(o.names()[a0] != o.names()[b0]);
            }
            assert forall|j: int| 0 <= j < n.lobbies@.len() implies Lobbies::lobby_ok(
                #[trigger] n.lobbies@[j],
            ) by {
                let j0 = if j < i { j } else { j + 1 };
                assert(n.lobbies@[j] == o.lobbies@[j0]);
            }
            assert forall|c: Con| #[trigger] n.con_to_lobby@.contains_key(c) implies exists|j: int|
                0 <= j < n.lobbies@.len() && (#[trigger] n.lobbies@[j]).name@ == n.con_to_lobby@[c]@
                    && n.lobbies@[j].players@.contains_key(c) by {
                let j = choose|j: int|
                    0 <= j < o.lobbies@.len() && (#[trigger] o.lobbies@[j]).name@ == o.con_to_lobby@[c]@
                        && o.lobbies@[j].players@.contains_key(c);
                assert(j != i);
                if j < i {
                    assert(n.lobbies@[j] == o.lobbies@[j]);
                } else {
                    assert(n.lobbies@[j - 1] == o.lobbies@[j]);
                }
            }
            assert forall|j: int, c: Con|
                0 <= j < n.lobbies@.len() && #[trigger] n.lobbies@[j].players@.contains_key(c) implies
                n.con_to_lobby@.contains_key(c) && n.con_to_lobby@[c]@ == n.lobbies@[j].name@ by {
                let j0 = if j < i { j } else { j + 1 };
                assert(n.lobbies@[j] == o.lobbies@[j0]);
                assert(o.lobbies@[j0].players@.contains_key(c));
                if gone.contains(c) {
                    assert(o.con_to_lobby@[c]@ == o.lobbies@[i as int].name@);
                    o.lemma_name_unique(i as int, j0);
                }
            }
            assert(!n.names().contains(name)) by {
                if n.names().contains(name) {
                    let j = choose|j: int| 0 <= j < n.names().len() && n.names()[j] == name;
                    let j0 = if j < i { j } else { j + 1 };
                    assert(o.names()[j0] == name);
                    assert(o.names()[i as int] == name);
                }
            }
            assert forall|c: Con| #[trigger] n.con_to_lobby@.contains_key(c) implies n.con_to_lobby@[c]@
                != name by {
                let j = choose|j: int|
                    0 <= j < n.lobbies@.len() && (#[trigger] n.lobbies@[j]).name@ == n.con_to_lobby@[c]@
                        && n.lobbies@[j].players@.contains_key(c);
                assert(n.names()[j] == n.con_to_lobby@[c]@);
            }
        }
        true
    }

    /// Records the vote of `con` in its lobby. The state then goes to every player, and
    /// the message to `con` answers request `pin`.
    pub fn vote_start(&mut self, con: Con, value: bool, pin: String) -> (r: Result<Voted, String>)
        requires
            old(self).wf(),
        ensures
            final(self).wf(),
            final(self).names() == old(self).names(),
            final(self).con_to_lobby == old(self).con_to_lobby,
            r is Ok == (old(self).con_to_lobby@.contains_key(con) && old(self).lobbies@[old(
                self,
            ).index_named(old(self).con_to_lobby@[con]@)].state is Prep),
            !old(self).con_to_lobby@.contains_key(con) ==> *final(self) == *old(self)
                && (r matches Err(m) && m@ == "lobby does not exist"@),
            old(self).con_to_lobby@.contains_key(con) ==> {
                let i = old(self).index_named(old(self).con_to_lobby@[con]@);
                let l0 = old(self).lobbies@[i];
                let l1 = final(self).lobbies@[i];
                &&& Lobbies::replaced(*old(self), *final(self), i)
                &&& l1.players == l0.players
                &&& l0.players@.contains_key(con)
                &&& (l0.state is Prep ==> {
                    let votes = l0.state->Prep_0.start_votes@.insert(con, value);
                    &&& (crate::state::all_voted(votes) ==> l1.state is Running && exists|p: PrepLobbyState|
                        p.wf() && p.start_votes@ == votes && RunningLobbyState::laid_out(
                            p,
                            l1.state->Running_0,
                        ))
                    &&& (!crate::state::all_voted(votes) ==> l1.state is Prep
                        && l1.state->Prep_0.start_votes@ == votes)
                })
                &&& (!(l0.state is Prep) ==> l1.state == l0.state && (r matches Err(m) && m@
                    == "Illegal state"@))
                &&& (r matches Ok(v) ==> {
                    &&& v.began == (l1.state is Running)
                    &&& delivers(l1, v.broadcast@, None, Some(con), Some(pin))
                })
            },
    {
        let i = match self.con_to_lobby.get(con) {
            None => {
                return Err(String::from_str("lobby does not exist"));
            },
            Some(name) => match self.find(name) {
                Some(i) => i,
                None => {
                    proof {
                        let j = choose|j: int|
                            0 <= j < self.lobbies@.len() && (#[trigger] self.lobbies@[j]).name@
                                == self.con_to_lobby@[con]@ && self.lobbies@[j].players@.contains_key(con);
                        assert(self.names()[j] == name@);
                    }
                    return Err(String::from_str("lobby does not exist"));
                },
            },
        };
        let ghost o = *self;
        proof {
            assert(Lobbies::lobby_ok(o.lobbies@[i as int]));
        }
        let mut l = self.lobbies.remove(i);
        let res = l.vote_start(con, value);
        proof {
            let j = choose|j: int|
                0 <= j < o.lobbies@.len() && (#[trigger] o.lobbies@[j]).name@ == o.con_to_lobby@[con]@
                    && o.lobbies@[j].players@.contains_key(con);
            o.lemma_name_unique(i as int, j);
        }
        self.lobbies.insert(i, l);
        proof {
            let n = *self;
            assert(n.lobbies@ =~= o.lobbies@.update(i as int, n.lobbies@[i as int]));
            Lobbies::lemma_same_players(o, n, i as int);
        }
        match res {
            Ok(()) => {
                let began = self.lobbies[i].is_ticking();
                let broadcast = self.lobbies[i].pinned_broadcast_state(pin, con);
                Ok(Voted { began, broadcast })
            },
            Err(m) => Err(m),
        }
    }

    /// Turns the snake of `con`, if `con` plays in a running game.
    pub fn set_con_direction(&mut self, con: Con, direction: Direction)
        requires
            old(self).wf(),
        ensures
            final(self).wf(),
            final(self).names() == old(self).names(),
            final(self).con_to_lobby == old(self).con_to_lobby,
            !old(self).con_to_lobby@.contains_key(con) ==> *final(self) == *old(self),
            old(self).con_to_lobby@.contains_key(con) ==> {
                let i = old(self).index_named(old(self).con_to_lobby@[con]@);
                let l0 = old(self).lobbies@[i];
                let l1 = final(self).lobbies@[i];
                &&& Lobbies::replaced(*old(self), *final(self), i)
                &&& l1.players == l0.players
                &&& (!(l0.state is Running) ==> l1.state == l0.state)
                &&& (l0.state is Running ==> l1.state is Running && RunningLobbyState::turned(
                    l0.state->Running_0,
                    l1.state->Running_0,
                    con,
                    direction,
                ))
            },
    {
        let i = match self.con_to_lobby.get(con) {
            None => {
                return;
            },
            Some(name) => match self.find(name) {
                Some(i) => i,
                None => {
                    proof {
                        let j = choose|j: int|
                            0 <= j < self.lobbies@.len() && (#[trigger] self.lobbies@[j]).name@
                                == self.con_to_lobby@[con]@ && self.lobbies@[j].players@.contains_key(con);
                        assert(self.names()[j] == name@);
                    }
                    return;
                },
            },
        };
        let ghost o = *self;
        proof {
            assert(Lobbies::lobby_ok(o.lobbies@[i as int]));
        }
        let mut l = self.lobbies.remove(i);
        let _ = l.set_con_direction(con, direction);
        self.lobbies.insert(i, l);
        proof {
            let n = *self;
            assert(n.lobbies@ =~= o.lobbies@.update(i as int, n.lobbies@[i as int]));
            Lobbies::lemma_same_players(o, n, i as int);
        }
    }

    /// Delivers `msg` to the lobby named `lobby_name`. When its game advanced, the result
    /// holds the new state for every player.
    pub fn handle_message(&mut self, lobby_name: &String, msg: LobbyMsg) -> (r: Vec<Outgoing>)
        requires
            old(self).wf(),
        ensures
            final(self).wf(),
            final(self).names() == old(self).names(),
            final(self).con_to_lobby == old(self).con_to_lobby,
            !old(self).names().contains(lobby_name@) ==> *final(self) == *old(self) && r@.len() == 0,
            old(self).names().contains(lobby_name@) ==> {
                let i = old(self).index_named(lobby_name@);
                let l0 = old(self).lobbies@[i];
                let l1 = final(self).lobbies@[i];
                &&& Lobbies::replaced(*old(self), *final(self), i)
                &&& l1.players == l0.players
                &&& (l0.state is Running && l0.state->Running_0.counter < u32::MAX ==> {
                    &&& l1.state is Running
                    &&& RunningLobbyState::ticked(l0.state->Running_0, l1.state->Running_0)
                    &&& delivers(l1, r@, None, None, None)
                })
                &&& (!(l0.state is Running && l0.state->Running_0.counter < u32::MAX) ==> l1.state
                    == l0.state && r@.len() == 0)
            },
    {
        let i = match self.find(lobby_name) {
            None => {
                return Vec::new();
            },
            Some(i) => i,
        };
        let ghost o = *self;
        proof {
            assert(Lobbies::lobby_ok(o.lobbies@[i as int]));
        }
        let mut l = self.lobbies.remove(i);
        let advanced = l.handle_message(msg);
        self.lobbies.insert(i, l);
        proof {
            let n = *self;
            assert(n.lobbies@ =~= o.lobbies@.update(i as int, n.lobbies@[i as int]));
            Lobbies::lemma_same_players(o, n, i as int);
        }
        if advanced {
            self.lobbies[i].broadcast_state()
        } else {
            Vec::new()
        }
    }

    /// Joining a lobby and then leaving it restores the registry as its queries see it:
    /// the same lobby names, the same reverse index, and the same players everywhere.
    pub proof fn lemma_join_then_leave(r0: Lobbies, r1: Lobbies, r2: Lobbies, name: Seq<char>, con: Con, un: String)
        requires
            r0.wf(),
            r1.wf(),
            !r0.con_to_lobby@.contains_key(con),
            r0.names().contains(name),
            Lobbies::join_effect(r0, r1, name, con, un),
            Lobbies::leave_effect(r1, r2, con),
        ensures
            r2.names() == r0.names(),
            r2.con_to_lobby@ == r0.con_to_lobby@,
            r2.lobbies@.len() == r0.lobbies@.len(),
            forall|j: int| 0 <= j < r0.lobbies@.len() ==> (#[trigger] r2.lobbies@[j]).players@
                == r0.lobbies@[j].players@,
    {
        let i = r0.index_named(name);
        let k = choose|k: int| 0 <= k < r0.names().len() && r0.names()[k] == name;
        assert(r0.lobbies@[k].name@ == name);
        Lobbies::lemma_replaced_names(r0, r1, i);
        r1.lemma_index_named(i);
        assert(r1.index_named(r1.con_to_lobby@[con]@) == i);
        Lobbies::lemma_replaced_names(r1, r2, i);
        assert(!r0.lobbies@[i].players@.contains_key(con));
        assert(r2.lobbies@[i].players@ =~= r0.lobbies@[i].players@);
        assert(r2.con_to_lobby@ =~= r0.con_to_lobby@);
        assert forall|j: int| 0 <= j < r0.lobbies@.len() implies (#[trigger] r2.lobbies@[j]).players@
            == r0.lobbies@[j].players@ by {
            if j != i {
                assert(r2.lobbies@[j] == r1.lobbies@[j]);
                assert(r1.lobbies@[j] == r0.lobbies@[j]);
            }
        }
    }
}

} // verus!
