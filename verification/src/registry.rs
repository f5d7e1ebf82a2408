use vstd::prelude::*;

use crate::game::Game;

verus! {

/// All games one deployment holds, one per session key. Sessions never
/// interact; creation is lazy and idempotent.
pub struct Registry {
    /// The session keys, in insertion order, pairwise distinct.
    pub keys: Vec<String>,
    /// The game of each key, same order.
    pub games: Vec<Game>,
}

impl Registry {
    pub open spec fn wf(self) -> bool {
        &&& self.keys@.len() == self.games@.len()
        &&& forall|i: int, j: int|
            0 <= i < j < self.keys@.len() ==> self.keys@[i]@ != self.keys@[j]@
        &&& forall|i: int| 0 <= i < self.games@.len() ==> (#[trigger] self.games@[i]).wf()
    }

    pub open spec fn has_key(self, k: Seq<char>) -> bool {
        exists|i: int| 0 <= i < self.keys@.len() && self.keys@[i]@ == k
    }

    /// The position of a session key (meaningful only where `has_key` holds;
    /// unique because keys are distinct).
    pub open spec fn key_index(self, k: Seq<char>) -> int {
        choose|i: int| 0 <= i < self.keys@.len() && self.keys@[i]@ == k
    }

    pub fn new() -> (r: Registry)
        ensures
            r.wf(),
            r.keys@.len() == 0,
    {
        Registry { keys: Vec::new(), games: Vec::new() }
    }

    pub fn num_games(&self) -> (r: usize)
        ensures
            r == self.games@.len(),
    {
        self.games.len()
    }

    /// The game of this session, made fresh the first time the session is
    /// seen. Never fails, and a second call with the same key finds the same
    /// game again. The registry stays well-formed as long as the caller
    /// leaves the game well-formed, which every game operation does.
    pub fn get_or_create(&mut self, key: String) -> (g: &mut Game)
        requires
            old(self).wf(),
        ensures
            g.wf(),
            final(g).wf() ==> final(self).wf(),
            if old(self).has_key(key@) {
                let i = old(self).key_index(key@);
                &&& *g == old(self).games@[i]
                &&& final(self).keys == old(self).keys
                &&& final(self).games@ == old(self).games@.update(i, *final(g))
            } else {
                &&& g.users@.len() == 0
                &&& g.slots@.len() == 0
                &&& !g.is_started
                &&& g.game_message is None
                &&& g.proof_challenge is None
                &&& final(self).keys@ == old(self).keys@.push(key)
                &&& final(self).games@ == old(self).games@.push(*final(g))
            },
    {
        let mut i: usize = 0;
        while i < self.keys.len()
            invariant
                *self == *old(self),
                self.wf(),
                i <= self.keys@.len(),
                forall|k0: int| 0 <= k0 < i ==> (#[trigger] self.keys@[k0])@ != key@,
            decreases self.keys@.len() - i,
        {
            if self.keys[i] == key {
                proof {
                    assert(self.has_key(key@));
                    let i2 = self.key_index(key@);
                    assert(0 <= i2 < self.keys@.len() && self.keys@[i2]@ == key@);
                    if i2 != i as int {
                        assert(self.keys@[i2]@ != self.keys@[i as int]@);
                    }
                }
                return &mut self.games[i];
            }
            i += 1;
        }
        proof {
            assert(!self.has_key(key@));
        }
        self.keys.push(key);
        self.games.push(Game::default());
        let n = self.games.len() - 1;
        proof {
            assert forall|a: int, b: int|
                0 <= a < b < self.keys@.len() implies (#[trigger] self.keys@[a])@
                != (#[trigger] self.keys@[b])@ by {
                if b == self.keys@.len() - 1 {
                    assert(self.keys@[a] == old(self).keys@[a]);
                }
            }
            assert(self.games@ =~= old(self).games@.push(self.games@[n as int]));
            assert(self.keys@[self.keys@.len() - 1] == key);
            assert(self.has_key(key@));
        }
        &mut self.games[n]
    }
}

} // verus!
