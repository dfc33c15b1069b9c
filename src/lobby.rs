use vstd::prelude::*;
use vstd::string::StringExecFns;

use crate::con_map::{Con, ConMap};
use crate::state::{
    others_of, snapshot, snapshot_vec, LobbyState, PrepLobbyState, RunningLobbyState,
};
use crate::world::{Boundaries, Direction, Pos, Snake, SnakeView, views};

verus! {

/// What a player is known by in a lobby. The player's message channel belongs to the
/// connection and stays with it.
#[derive(Debug)]
pub struct LobbyConState {
    pub un: String,
}

impl LobbyConState {
    pub fn new(un: String) -> (r: LobbyConState)
        ensures
            r.un == un,
    {
        LobbyConState { un }
    }
}

/// A participant of a lobby that has not started yet, as shown to players.
#[derive(Debug)]
pub struct LobbyPrepParticipant {
    pub user_name: String,
    pub vote_start: bool,
}

/// The game as shown to one player: their own snake apart from the others.
#[derive(Debug)]
pub struct Domain {
    pub snake: Option<Snake>,
    pub other_snakes: Vec<Snake>,
    pub foods: Vec<Pos>,
    pub boundaries: Boundaries,
}

#[derive(Debug)]
pub struct LobbyRunning {
    pub counter: u32,
    pub player_counter: u32,
    pub domain: Domain,
}

/// A lobby's state, tailored to the player it is sent to.
#[derive(Debug)]
pub enum LobbyStateView {
    Prep(Vec<LobbyPrepParticipant>),
    Running(LobbyRunning),
    Terminated,
}

/// A state message for one player; `id` answers the request that caused it, if any.
#[derive(Debug)]
pub struct Outgoing {
    pub to: Con,
    pub id: Option<String>,
    pub state: LobbyStateView,
}

/// A tick of a running lobby.
#[derive(Clone, Copy, Debug, PartialEq, Eq, Structural)]
pub enum LobbyMsg {
    Advance,
}

/// What a lobby asks of the registry.
#[derive(Debug)]
pub enum LobbiesMsg {
    RemoveLobby(String),
}

/// A message on a lobby's control channel.
#[derive(Debug)]
pub enum LobbyCtrlMsg {
    LobbyMsg(LobbyMsg),
    LobbiesMsg(LobbiesMsg),
}

/// The snakes of `m` but the one of `receiver`, in ascending key order.
pub open spec fn others_view(m: ConMap<Snake>, receiver: Con) -> Seq<SnakeView> {
    if m@.contains_key(receiver) {
        snapshot(m).remove(m.index_of(receiver))
    } else {
        snapshot(m)
    }
}

/// A named room: its players, and the phase of its game.
///
/// `bound` tells whether a control channel was attached, and `ticking` whether a tick
/// driver should be running; the channel and the driver themselves are the host's.
#[derive(Debug)]
pub struct Lobby {
    pub name: String,
    pub players: ConMap<LobbyConState>,
    pub state: LobbyState,
    pub bound: bool,
    pub ticking: bool,
}

impl Lobby {
    /// The lobby's invariant: the votes of a lobby in preparation are those of its players,
    /// and every snake of a running game belongs to one of its players.
    pub open spec fn wf(&self) -> bool {
        &&& self.players.wf()
        &&& self.state.wf()
        &&& match self.state {
            LobbyState::Prep(s) => s.start_votes@.dom() == self.players@.dom(),
            LobbyState::Running(s) => {
                &&& s.snakes@.dom().subset_of(s.cons@.dom())
                &&& s.cons@.dom().subset_of(self.players@.dom())
                &&& self.ticking
            },
            LobbyState::Terminated => !self.ticking,
        }
        &&& (self.state is Prep ==> !self.ticking)
    }

    /// A lobby as made by `new`: no players, in preparation, not bound.
    pub open spec fn is_fresh(&self) -> bool {
        &&& self.wf()
        &&& self.players@ == Map::<Con, LobbyConState>::empty()
        &&& self.state is Prep
        &&& !self.bound
    }

    pub fn new(name: String) -> (r: Lobby)
        ensures
            r.name == name,
            r.is_fresh(),
    {
        let r = Lobby {
            name,
            players: ConMap::new(),
            state: LobbyState::Prep(PrepLobbyState::new()),
            bound: false,
            ticking: false,
        };
        r
    }

    /// Attaches a control channel.
    pub fn set_ch(self) -> (r: Lobby)
        ensures
            r.name == self.name,
            r.players == self.players,
            r.state == self.state,
            r.ticking == self.ticking,
            r.bound,
    {
        Lobby { bound: true, ..self }
    }

    pub fn is_bound(&self) -> (r: bool)
        ensures
            r == self.bound,
    {
        self.bound
    }

    /// Whether a tick driver should be running for this lobby.
    pub fn is_ticking(&self) -> (r: bool)
        ensures
            r == self.ticking,
    {
        self.ticking
    }

    /// Starts the game: every player gets a snake. Only a lobby in preparation with a
    /// control channel can start.
    pub fn begin(&mut self) -> (r: Result<(), String>)
        requires
            old(self).wf(),
        ensures
            final(self).wf(),
            final(self).name == old(self).name,
            final(self).players == old(self).players,
            final(self).bound == old(self).bound,
            r is Ok == (old(self).state is Prep && old(self).bound),
            r is Ok ==> final(self).ticking && final(self).state is Running,
            r is Ok ==> RunningLobbyState::laid_out(old(self).state->Prep_0, final(self).state->Running_0),
            r is Ok ==> final(self).state->Running_0.cons@.dom() == old(self).players@.dom(),
            r is Err ==> final(self).state == old(self).state && final(self).ticking
                == old(self).ticking,
            !old(self).bound ==> (r matches Err(m) && m@ == "No control channel"@),
            old(self).bound && !(old(self).state is Prep) ==> (r matches Err(m) && m@ == "Illegal state"@),
    {
        if !self.bound {
            return Err(String::from_str("No control channel"));
        }
        match &self.state {
            LobbyState::Prep(s) => {
                let running = s.to_running();
                self.state = LobbyState::Running(running);
                self.ticking = true;
                Ok(())
            },
            _ => Err(String::from_str("Illegal state")),
        }
    }

    /// Ends a running game; the tick driver and the control channel are let go. Does
    /// nothing in any other phase.
    pub fn stop(&mut self)
        requires
            old(self).wf(),
        ensures
            final(self).wf(),
            final(self).name == old(self).name,
            final(self).players == old(self).players,
            !final(self).ticking,
            old(self).state is Running ==> final(self).state is Terminated && !final(self).bound,
            !(old(self).state is Running) ==> final(self).state == old(self).state
                && final(self).bound == old(self).bound,
    {
        match &self.state {
            LobbyState::Running(_) => {
                self.ticking = false;
                self.bound = false;
                self.state = LobbyState::Terminated;
            },
            _ => {},
        }
    }

    /// Records a vote in a lobby in preparation; when everyone has voted to start, the
    /// game begins.
    pub fn vote_start(&mut self, con: Con, value: bool) -> (r: Result<(), String>)
        requires
            old(self).wf(),
        ensures
            final(self).wf(),
            final(self).name == old(self).name,
            final(self).players == old(self).players,
            final(self).bound == old(self).bound,
            !(old(self).state is Prep) ==> (r matches Err(m) && m@ == "Illegal state"@),
            !(old(self).state is Prep) ==> final(self).state == old(self).state
                && final(self).ticking == old(self).ticking,
            old(self).state is Prep ==> {
                let votes = old(self).state->Prep_0.start_votes@;
                let after = if votes.contains_key(con) {
                    votes.insert(con, value)
                } else {
                    votes
                };
                if crate::state::all_voted(after) && old(self).bound {
                    &&& final(self).state is Running
                    &&& final(self).ticking
                    &&& r is Ok
                    &&& exists|p: PrepLobbyState|
                        p.wf() && p.start_votes@ == after && RunningLobbyState::laid_out(
                            p,
                            final(self).state->Running_0,
                        )
                } else if crate::state::all_voted(after) {
                    &&& final(self).state is Prep
                    &&& final(self).state->Prep_0.start_votes@ == after
                    &&& !final(self).ticking
                    &&& (r matches Err(m) && m@ == "No control channel"@)
                } else {
                    &&& final(self).state is Prep
                    &&& final(self).state->Prep_0.start_votes@ == after
                    &&& !final(self).ticking
                    &&& r is Ok
                }
            },
    {
        match &mut self.state {
            LobbyState::Prep(s) => {
                let ghost d = s.start_votes@.dom();
                s.vote_start(con, value);
                proof {
                    assert(s.start_votes@.dom() =~= d);
                }
                if s.all_voted_to_start() {
                    let ghost p = *s;
                    let r = self.begin();
                    proof {
                        if r is Ok {
                            assert(p.wf() && RunningLobbyState::laid_out(p, self.state->Running_0));
                        }
                    }
                    r
                } else {
                    Ok(())
                }
            },
            _ => Err(String::from_str("Illegal state")),
        }
    }

    /// Turns the snake of `con` in a running game.
    pub fn set_con_direction(&mut self, con: Con, direction: Direction) -> (r: Result<(), String>)
        requires
            old(self).wf(),
        ensures
            final(self).wf(),
            final(self).name == old(self).name,
            final(self).players == old(self).players,
            final(self).bound == old(self).bound,
            final(self).ticking == old(self).ticking,
            r is Ok == old(self).state is Running,
            r is Err ==> (r matches Err(m) && m@ == "Illegal state"@),
            !(old(self).state is Running) ==> final(self).state == old(self).state,
            old(self).state is Running ==> final(self).state is Running && RunningLobbyState::turned(
                old(self).state->Running_0,
                final(self).state->Running_0,
                con,
                direction,
            ),
    {
        match &mut self.state {
            LobbyState::Running(s) => {
                s.set_con_direction(con, direction);
                Ok(())
            },
            _ => Err(String::from_str("Illegal state")),
        }
    }

    /// Adds a player to a lobby in preparation.
    pub fn join_con(&mut self, con: Con, un: String) -> (r: Result<(), String>)
        requires
            old(self).wf(),
        ensures
            final(self).wf(),
            final(self).name == old(self).name,
            final(self).bound == old(self).bound,
            final(self).ticking == old(self).ticking,
            r is Ok == old(self).state is Prep,
            r is Ok ==> final(self).players@ == old(self).players@.insert(con, LobbyConState { un }),
            r is Ok ==> final(self).state is Prep,
            r is Ok ==> final(self).state->Prep_0.start_votes@ == old(self).state->Prep_0.start_votes@.insert(
                con,
                false,
            ),
            r is Err ==> final(self).players == old(self).players && final(self).state == old(self).state
                && (r matches Err(m) && m@ == "Illegal state"@),
    {
        match &mut self.state {
            LobbyState::Prep(s) => {
                self.players.insert(con, LobbyConState::new(un));
                s.join_con(con);
                Ok(())
            },
            _ => Err(String::from_str("Illegal state")),
        }
    }

    /// Removes a player, in any phase. When the last player leaves a running game, the
    /// returned message asks the registry to remove the lobby.
    pub fn disjoin_con(&mut self, con: &Con) -> (r: Option<LobbyCtrlMsg>)
        requires
            old(self).wf(),
        ensures
            final(self).wf(),
            final(self).name == old(self).name,
            final(self).bound == old(self).bound,
            final(self).ticking == old(self).ticking,
            final(self).players@ == old(self).players@.remove(*con),
            old(self).state is Prep ==> final(self).state is Prep
                && final(self).state->Prep_0.start_votes@ == old(self).state->Prep_0.start_votes@.remove(
                *con,
            ),
            old(self).state is Running ==> final(self).state is Running
                && final(self).state->Running_0.cons@ == old(self).state->Running_0.cons@.remove(*con)
                && final(self).state->Running_0.snakes@ == old(self).state->Running_0.snakes@.remove(
                *con,
            ),
            old(self).state is Running ==> {
                let s0 = old(self).state->Running_0;
                let s1 = final(self).state->Running_0;
                &&& s1.counter == s0.counter
                &&& s1.boundaries == s0.boundaries
                &&& s0.snakes@.contains_key(*con) ==> s1.foods@ == s0.foods@.union(
                    s0.snakes@[*con]@.cells.to_set(),
                )
                &&& !s0.snakes@.contains_key(*con) ==> s1.foods@ == s0.foods@
            },
            old(self).state is Terminated ==> final(self).state is Terminated,
            r is Some == (old(self).state is Running && final(self).players@.len() == 0
                && old(self).bound),
            r matches Some(m) ==> m matches LobbyCtrlMsg::LobbiesMsg(LobbiesMsg::RemoveLobby(n))
                && n == old(self).name,
    {
        self.players.remove(*con);
        match &mut self.state {
            LobbyState::Prep(s) => {
                s.remove_con(con);
                None
            },
            LobbyState::Running(s) => {
                s.remove_con(con);
                if self.players.is_empty() && self.bound {
                    Some(LobbyCtrlMsg::LobbiesMsg(LobbiesMsg::RemoveLobby(self.name.clone())))
                } else {
                    None
                }
            },
            LobbyState::Terminated => None,
        }
    }

    /// Handles a tick: a running game advances by one, and then its state is to be sent
    /// to every player (the result says whether). In any other phase the tick is dropped.
    pub fn handle_message(&mut self, msg: LobbyMsg) -> (r: bool)
        requires
            old(self).wf(),
        ensures
            final(self).wf(),
            final(self).name == old(self).name,
            final(self).players == old(self).players,
            final(self).bound == old(self).bound,
            final(self).ticking == old(self).ticking,
            r == (old(self).state is Running && old(self).state->Running_0.counter < u32::MAX),
            r ==> final(self).state is Running && RunningLobbyState::ticked(
                old(self).state->Running_0,
                final(self).state->Running_0,
            ),
            !r ==> final(self).state == old(self).state,
    {
        match &mut self.state {
            LobbyState::Running(s) => {
                if s.counter < u32::MAX {
                    s.advance();
                    true
                } else {
                    false
                }
            },
            _ => false,
        }
    }

    /// What `receiver` is shown of this lobby.
    pub open spec fn shows(&self, receiver: Con, v: LobbyStateView) -> bool {
        match self.state {
            LobbyState::Prep(s) => match v {
                LobbyStateView::Prep(ps) => {
                    &&& ps@.len() == self.players.entries@.len()
                    &&& forall|i: int|
                        0 <= i < ps@.len() ==> (#[trigger] ps@[i]).user_name@
                            == self.players.entries@[i].1.un@ && ps@[i].vote_start
                            == s.start_votes@[self.players.entries@[i].0]
                },
                _ => false,
            },
            LobbyState::Running(s) => match v {
                LobbyStateView::Running(run) => {
                    &&& run.counter == s.counter
                    &&& run.player_counter == s.cons@.len()
                    &&& run.domain.boundaries == s.boundaries
                    &&& run.domain.foods@.to_set() == s.foods@
                    &&& run.domain.snake is Some == s.snakes@.contains_key(receiver)
                    &&& (run.domain.snake matches Some(sn) ==> sn@ == s.snakes@[receiver]@)
                    &&& views(run.domain.other_snakes@) == others_view(s.snakes, receiver)
                },
                _ => false,
            },
            LobbyState::Terminated => v is Terminated,
        }
    }

    /// The lobby as `receiver` sees it: in preparation, each player's name and vote; in
    /// a game, the receiver's own snake, the others, the foods and the field; or that the
    /// game is over.
    pub fn state(&self, receiver: Con) -> (r: LobbyStateView)
        requires
            self.wf(),
        ensures
            self.shows(receiver, r),
    {
        match &self.state {
            LobbyState::Prep(s) => {
                let mut ps: Vec<LobbyPrepParticipant> = Vec::new();
                let n = self.players.entries.len();
                let mut i: usize = 0;
                while i < n
                    invariant
                        self.wf(),
                        self.state == LobbyState::Prep(*s),
                        n == self.players.entries@.len(),
                        i <= n,
                        ps@.len() == i,
                        forall|j: int|
                            0 <= j < i ==> (#[trigger] ps@[j]).user_name@
                                == self.players.entries@[j].1.un@ && ps@[j].vote_start
                                == s.start_votes@[self.players.entries@[j].0],
                    decreases n - i,
                {
                    let con = self.players.entries[i].0;
                    proof {
                        self.players.lemma_index(i as int);
                    }
                    let vote = match s.start_votes.get(con) {
                        Some(v) => *v,
                        None => false,
                    };
                    let un = self.players.entries[i].1.un.clone();
                    ps.push(LobbyPrepParticipant { user_name: un, vote_start: vote });
                    i = i + 1;
                }
                LobbyStateView::Prep(ps)
            },
            LobbyState::Running(s) => {
                let snap = snapshot_vec(&s.snakes);
                let (snake, other_snakes) = match s.snakes.position(receiver) {
                    Some(i) => {
                        proof {
                            s.snakes.lemma_index(i as int);
                            assert(snapshot(s.snakes).len() == s.snakes.entries@.len());
                            assert(views(snap@).len() == snap@.len());
                            assert(views(snap@)[i as int] == snap@[i as int]@);
                        }
                        (Some(snap[i].duplicate()), others_of(&snap, i))
                    },
                    None => (None, snapshot_vec(&s.snakes)),
                };
                proof {
                    s.cons.lemma_len_bound();
                }
                let player_counter = s.cons.len() as u32;
                LobbyStateView::Running(
                    LobbyRunning {
                        counter: s.counter,
                        player_counter,
                        domain: Domain {
                            snake,
                            other_snakes,
                            foods: s.foods.to_vec(),
                            boundaries: s.boundaries,
                        },
                    },
                )
            },
            LobbyState::Terminated => LobbyStateView::Terminated,
        }
    }

    /// The state for every player but `except` (if given), in ascending connection
    /// order; the message to `pinned`, if given, carries `pin`.
    fn outbox(&self, except: Option<Con>, pinned: Option<Con>, pin: Option<String>) -> (r: Vec<Outgoing>)
        requires
            self.wf(),
        ensures
            delivers(*self, r@, except, pinned, pin),
            forall|a: int, b: int| 0 <= a < b < r@.len() ==> (#[trigger] r@[a]).to < (#[trigger] r@[b]).to,
    {
        let mut r: Vec<Outgoing> = Vec::new();
        let n = self.players.entries.len();
        let mut i: usize = 0;
        while i < n
            invariant
                self.wf(),
                n == self.players.entries@.len(),
                i <= n,
                forall|j: int| 0 <= j < r@.len() ==> self.shows((#[trigger] r@[j]).to, r@[j].state),
                forall|j: int|
                    0 <= j < r@.len() ==> self.players@.contains_key((#[trigger] r@[j]).to) && Some(
                        r@[j].to,
                    ) != except,
                forall|j: int|
                    0 <= j < i && Some(#[trigger] self.players.entries@[j].0) != except ==> exists|
                        k: int,
                    | 0 <= k < r@.len() && (#[trigger] r@[k]).to == self.players.entries@[j].0,
                forall|j: int|
                    0 <= j < r@.len() ==> (#[trigger] r@[j]).id == (if Some(r@[j].to) == pinned {
                        pin
                    } else {
                        None
                    }),
                forall|a: int, b: int| 0 <= a < b < r@.len() ==> (#[trigger] r@[a]).to < (#[trigger] r@[b]).to,
                forall|a: int, j: int|
                    0 <= a < r@.len() && i <= j < n ==> (#[trigger] r@[a]).to < (
                    #[trigger] self.players.entries@[j]).0,
            decreases n - i,
        {
            let con = self.players.entries[i].0;
            proof {
                self.players.lemma_index(i as int);
            }
            let skip = match except {
                Some(e) => e == con,
                None => false,
            };
            if !skip {
                let is_pinned = match pinned {
                    Some(p) => p == con,
                    None => false,
                };
                let id = if is_pinned {
                    match &pin {
                        Some(p) => Some(p.clone()),
                        None => None,
                    }
                } else {
                    None
                };
                let ghost r0 = r@;
                r.push(Outgoing { to: con, id, state: self.state(con) });
                proof {
                    assert(r@[r0.len() as int].to == con);
                    assert forall|j: int|
                        0 <= j < i + 1 && Some(#[trigger] self.players.entries@[j].0) != except implies exists|
                        k: int,
                    | 0 <= k < r@.len() && (#[trigger] r@[k]).to == self.players.entries@[j].0 by {
                        if j < i {
                            let k = choose|k: int|
                                0 <= k < r0.len() && (#[trigger] r0[k]).to == self.players.entries@[j].0;
                            assert(r@[k] == r0[k]);
                        } else {
                            assert(r@[r0.len() as int].to == self.players.entries@[j].0);
                        }
                    }
                    assert forall|a: int, b: int| 0 <= a < b < r@.len() implies (#[trigger] r@[a]).to < (
                    #[trigger] r@[b]).to by {
                        if b < r0.len() {
                            assert(r0[a].to < r0[b].to);
                        } else {
                            assert(r0[a].to < self.players.entries@[i as int].0);
                        }
                    }
                    assert forall|a: int, j: int|
                        0 <= a < r@.len() && i + 1 <= j < n implies (#[trigger] r@[a]).to < (
                        #[trigger] self.players.entries@[j]).0 by {
                        assert(self.players.entries@[i as int].0 < self.players.entries@[j].0);
                        if a < r0.len() {
                            assert(r0[a].to < self.players.entries@[j].0);
                        }
                    }
                }
            }
            i = i + 1;
        }
        proof {
            assert forall|c: Con| #[trigger] self.players@.contains_key(c) && Some(c) != except implies exists|
                i: int,
            | 0 <= i < r@.len() && (#[trigger] r@[i]).to == c by {
                let j = self.players.index_of(c);
                assert(self.players.entries@[j].0 == c);
            }
        }
        r
    }

    /// The state for every player, once each.
    pub fn broadcast_state(&self) -> (r: Vec<Outgoing>)
        requires
            self.wf(),
        ensures
            delivers(*self, r@, None, None, None),
    {
        self.outbox(None, None, None)
    }

    /// The state for every player but `con`, once each.
    pub fn broadcast_state_except(&self, con: Con) -> (r: Vec<Outgoing>)
        requires
            self.wf(),
        ensures
            delivers(*self, r@, Some(con), None, None),
    {
        self.outbox(Some(con), None, None)
    }

    /// The state for every player, once each; the message to `con` answers request `pin`.
    pub fn pinned_broadcast_state(&self, pin: String, con: Con) -> (r: Vec<Outgoing>)
        requires
            self.wf(),
        ensures
            delivers(*self, r@, None, Some(con), Some(pin)),
    {
        self.outbox(None, Some(con), Some(pin))
    }
}

/// `out` holds, for each player of `l` but `except`, exactly one message: the lobby as that
/// player sees it, carrying `pin` when sent to `pinned` and no id otherwise.
pub open spec fn delivers(
    l: Lobby,
    out: Seq<Outgoing>,
    except: Option<Con>,
    pinned: Option<Con>,
    pin: Option<String>,
) -> bool {
    &&& forall|i: int| 0 <= i < out.len() ==> l.shows((#[trigger] out[i]).to, out[i].state)
    &&& forall|i: int|
        0 <= i < out.len() ==> l.players@.contains_key((#[trigger] out[i]).to) && Some(out[i].to) != except
    &&& forall|c: Con| #[trigger]
        l.players@.contains_key(c) && Some(c) != except ==> exists|i: int|
            0 <= i < out.len() && (#[trigger] out[i]).to == c
    &&& forall|i: int|
        0 <= i < out.len() ==> (#[trigger] out[i]).id == (if Some(out[i].to) == pinned {
            pin
        } else {
            None
        })
    &&& forall|i: int, j: int| 0 <= i < j < out.len() ==> (#[trigger] out[i]).to != (#[trigger] out[j]).to
}

} // verus!
