use vstd::prelude::*;

use crate::con_map::{Con, ConMap};

verus! {

/// The user names claimed by connections: at most one per connection, and no name held
/// by two connections.
#[derive(Debug)]
pub struct PlayerUserNames {
    pub by_con: ConMap<String>,
}

impl PlayerUserNames {
    /// No two connections hold the same name.
    pub open spec fn unique(&self) -> bool {
        forall|a: Con, b: Con|
            #[trigger] self.by_con@.contains_key(a) && #[trigger] self.by_con@.contains_key(b) && a != b
                ==> self.by_con@[a]@ != self.by_con@[b]@
    }

    pub open spec fn wf(&self) -> bool {
        self.by_con.wf() && self.unique()
    }

    /// Whether a connection other than `con` holds `name`.
    pub open spec fn held_by_other(&self, name: Seq<char>, con: Con) -> bool {
        exists|c: Con| #[trigger] self.by_con@.contains_key(c) && c != con && self.by_con@[c]@ == name
    }

    pub fn new() -> (r: PlayerUserNames)
        ensures
            r.wf(),
            r.by_con@ == Map::<Con, String>::empty(),
    {
        PlayerUserNames { by_con: ConMap::new() }
    }

    /// Lets `con` hold `name` in place of any name it held, unless another connection
    /// holds it. Claiming the name one holds changes nothing.
    pub fn try_insert(&mut self, name: String, con: Con) -> (r: Result<(), ()>)
        requires
            old(self).wf(),
        ensures
            final(self).wf(),
            r is Err == old(self).held_by_other(name@, con),
            r is Err ==> *final(self) == *old(self),
            r is Ok ==> final(self).by_con@ == old(self).by_con@.insert(con, name),
    {
        let n = self.by_con.entries.len();
        let mut i: usize = 0;
        while i < n
            invariant
                self.wf(),
                n == self.by_con.entries@.len(),
                i <= n,
                forall|j: int|
                    0 <= j < i ==> (#[trigger] self.by_con.entries@[j]).0 == con
                        || self.by_con.entries@[j].1@ != name@,
            decreases n - i,
        {
            if self.by_con.entries[i].0 != con && self.by_con.entries[i].1 == name {
                proof {
                    self.by_con.lemma_index(i as int);
                }
                return Err(());
            }
            i = i + 1;
        }
        assert(!self.held_by_other(name@, con)) by {
            if self.held_by_other(name@, con) {
                let c = choose|c: Con|
                    #[trigger] self.by_con@.contains_key(c) && c != con && self.by_con@[c]@ == name@;
                let j = self.by_con.index_of(c);
                self.by_con.lemma_index(j);
            }
        }
        let ghost o = self.by_con@;
        self.by_con.insert(con, name);
        proof {
            assert forall|a: Con, b: Con|
                #[trigger] self.by_con@.contains_key(a) && #[trigger] self.by_con@.contains_key(b) && a
                    != b implies self.by_con@[a]@ != self.by_con@[b]@ by {
                if a == con {
                    assert(!(o.contains_key(b) && b != con && o[b]@ == name@));
                } else if b == con {
                    assert(!(o.contains_key(a) && a != con && o[a]@ == name@));
                }
            }
        }
        Ok(())
    }

    /// Releases every name held by `con`.
    pub fn clean_con(&mut self, con: Con)
        requires
            old(self).wf(),
        ensures
            final(self).wf(),
            final(self).by_con@ == old(self).by_con@.remove(con),
    {
        self.by_con.remove(con);
    }

    /// The name `con` holds, if any.
    pub fn user_name(&self, con: Con) -> (r: Option<String>)
        requires
            self.wf(),
        ensures
            r is Some == self.by_con@.contains_key(con),
            r matches Some(n) ==> n@ == self.by_con@[con]@,
    {
        match self.by_con.get(con) {
            Some(n) => Some(n.clone()),
            None => None,
        }
    }
}

} // verus!
