use vstd::prelude::*;

use crate::MAX_TRICKS;
use crate::challenge::ProofChallenge;
use crate::idmap::{IdIndex, id_entries, id_index_get, id_index_insert, id_index_new};
use crate::types::{GameMessage, GameUser, Participant, Proof, Rejection, Trick};

verus! {

/// One game of skate inside one chat. Participants are kept in insertion
/// order; that order, never revised, gives every trick its global number.
pub struct Game {
    /// The participants' users, in insertion order.
    pub users: Vec<GameUser>,
    /// The participants' records, one per user, same order.
    pub slots: Vec<Participant>,
    /// User id to slot index; mirrors `users` exactly.
    pub lookup: IdIndex,
    /// The pinned board message, once one was sent.
    pub game_message: Option<GameMessage>,
    /// Flips to true on the first trick and never reverts.
    pub is_started: bool,
    /// The at most one challenge being voted on.
    pub proof_challenge: Option<ProofChallenge>,
}

/// The participant a trick number belongs to: numbering fills each slot with
/// `MAX_TRICKS` consecutive numbers before moving to the next.
pub open spec fn trick_owner_index(n: int) -> int {
    (n - 1) / (MAX_TRICKS as int)
}

/// The position within the owning participant's trick list.
pub open spec fn trick_slot_index(n: int) -> int {
    (n - 1) % (MAX_TRICKS as int)
}

/// Whether `p`'s proofs cover trick number `n`.
pub open spec fn covers(p: Participant, n: usize) -> bool {
    exists|k: int, t: int|
        0 <= k < p.proofs@.len() && 0 <= t < p.proofs@[k].tricks_proven@.len()
            && p.proofs@[k].tricks_proven@[t] == n
}

/// Whether one of `p`'s proofs has `m` as its message reference.
pub open spec fn msg_backed_by(p: Participant, m: GameMessage) -> bool {
    exists|k: int| 0 <= k < p.proofs@.len() && (#[trigger] p.proofs@[k]).msg == m
}

impl Game {
    pub open spec fn has_user(self, id: i64) -> bool {
        exists|j: int| 0 <= j < self.users@.len() && self.users@[j].id == id
    }

    /// The slot index of the participant with this id (meaningful only when
    /// `has_user(id)` holds; unique because ids are distinct).
    pub open spec fn user_index(self, id: i64) -> int {
        choose|j: int| 0 <= j < self.users@.len() && self.users@[j].id == id
    }

    /// The record of the participant with this id.
    pub open spec fn participant_of(self, id: i64) -> Participant {
        self.slots@[self.user_index(id)]
    }

    pub open spec fn ids_distinct(self) -> bool {
        forall|j: int, k: int|
            0 <= j < k < self.users@.len() ==> self.users@[j].id != self.users@[k].id
    }

    /// The lookup map holds exactly the pairs (users[j].id, j), in order.
    pub open spec fn lookup_matches(self) -> bool {
        &&& id_entries(self.lookup).len() == self.users@.len()
        &&& forall|j: int|
            0 <= j < self.users@.len() ==> id_entries(self.lookup)[j] == (
            self.users@[j].id,
            j as usize,
        )
    }

    pub open spec fn tricks_capped(self) -> bool {
        forall|j: int|
            0 <= j < self.slots@.len() ==> (#[trigger] self.slots@[j]).tricks@.len() <= MAX_TRICKS
    }

    /// One video backs at most one proof in the whole game: proofs at
    /// distinct positions carry distinct message references.
    pub open spec fn proof_msgs_unique(self) -> bool {
        forall|j1: int, k1: int, j2: int, k2: int|
            #![trigger self.slots@[j1].proofs@[k1], self.slots@[j2].proofs@[k2]]
            (0 <= j1 < self.slots@.len() && 0 <= k1 < self.slots@[j1].proofs@.len() && 0 <= j2
                < self.slots@.len() && 0 <= k2 < self.slots@[j2].proofs@.len() && (j1 != j2 || k1
                != k2)) ==> self.slots@[j1].proofs@[k1].msg != self.slots@[j2].proofs@[k2].msg
    }

    /// The open challenge, if any, is in step with the game: its tallies
    /// match its voter list and its target proof still exists.
    pub open spec fn challenge_wf(self) -> bool {
        match self.proof_challenge {
            None => true,
            Some(ch) => {
                &&& ch.voters_distinct()
                &&& ch.tallies_consistent()
                &&& self.has_user(ch.user.id)
                &&& msg_backed_by(self.participant_of(ch.user.id), ch.proof.msg)
            },
        }
    }

    /// Well-formedness: every operation requires and preserves this.
    pub open spec fn wf(self) -> bool {
        &&& self.users@.len() == self.slots@.len()
        &&& self.ids_distinct()
        &&& self.lookup_matches()
        &&& self.tricks_capped()
        &&& self.proof_msgs_unique()
        &&& self.challenge_wf()
    }

    /// Whether the game has started (a first trick was registered).
    pub fn started(&self) -> (r: bool)
        ensures
            r == self.is_started,
    {
        self.is_started
    }

    /// The pinned board message, if one was recorded.
    pub fn game_message(&self) -> (r: Option<GameMessage>)
        ensures
            r == self.game_message,
    {
        self.game_message
    }

    /// Records the chat message that carries the game board.
    pub fn set_game_message(&mut self, m: GameMessage)
        ensures
            *final(self) == (Game { game_message: Some(m), ..*old(self) }),
    {
        self.game_message = Some(m);
    }

    pub fn num_participants(&self) -> (r: usize)
        ensures
            r == self.users@.len(),
    {
        self.users.len()
    }

    /// The user at a slot index, by insertion order.
    pub fn user_by_index(&self, index: usize) -> (r: Option<GameUser>)
        ensures
            match r {
                Some(u) => index < self.users@.len() && u == self.users@[index as int],
                None => index >= self.users@.len(),
            },
    {
        if index < self.users.len() {
            Some(self.users[index].clone())
        } else {
            None
        }
    }

    /// Starts this chat's game over: every participant, proof and challenge
    /// is dropped, as if the game had just been created.
    pub fn reset(&mut self)
        ensures
            final(self).wf(),
            final(self).users@.len() == 0,
            final(self).slots@.len() == 0,
            !final(self).is_started,
            final(self).game_message is None,
            final(self).proof_challenge is None,
    {
        *self = Game::default();
    }

    /// A copy of the record at a slot index, by insertion order.
    pub fn participant_by_index(&self, index: usize) -> (r: Option<Participant>)
        ensures
            match r {
                Some(p) => index < self.slots@.len() && crate::types::participant_eq(
                    p,
                    self.slots@[index as int],
                ),
                None => index >= self.slots@.len(),
            },
    {
        if index < self.slots.len() {
            Some(self.slots[index].clone())
        } else {
            None
        }
    }

    /// The slot index of the participant with this id, if one exists.
    pub(crate) fn slot_of(&self, id: i64) -> (r: Option<usize>)
        requires
            self.wf(),
        ensures
            match r {
                Some(j) => self.has_user(id) && j == self.user_index(id) && j
                    < self.users@.len() && self.users@[j as int].id == id,
                None => !self.has_user(id),
            },
    {
        let r = id_index_get(&self.lookup, id);
        proof {
            match r {
                Some(j) => {
                    assert(self.users.len() == self.users@.len());
                    let i = choose|i: int|
                        0 <= i < id_entries(self.lookup).len() && id_entries(self.lookup)[i] == (
                        id,
                        j,
                        );
                    assert(id_entries(self.lookup)[i] == (self.users@[i].id, i as usize));
                    assert(0 <= i < self.users@.len() && self.users@.len() <= usize::MAX);
                    assert((i as usize) as int == i);
                    assert(self.users@[i].id == id && j == i);
                    assert(self.user_index(id) == i) by {
                        let j2 = self.user_index(id);
                        assert(0 <= j2 < self.users@.len() && self.users@[j2].id == id);
                        if j2 != i {
                            assert(self.users@[j2].id != self.users@[i].id);
                        }
                    }
                },
                None => {
                    assert forall|j: int|
                        0 <= j < self.users@.len() implies self.users@[j].id != id by {
                        assert(id_entries(self.lookup)[j] == (self.users@[j].id, j as usize));
                    }
                },
            }
        }
        r
    }

    /// The registered tricks of this user, or None for a non-participant.
    pub fn participant_tricks(&self, participant: &GameUser) -> (r: Option<Vec<Trick>>)
        requires
            self.wf(),
        ensures
            match r {
                Some(ts) => self.has_user(participant.id) && ts@ == self.participant_of(
                    participant.id,
                ).tricks@,
                None => !self.has_user(participant.id),
            },
    {
        match self.slot_of(participant.id) {
            Some(j) => {
                let p = self.slots[j].clone();
                Some(p.tricks)
            },
            None => None,
        }
    }
}

/// Whether `pre` lets `user` register one more trick: a fresh user always
/// may; a known one only below the cap.
impl Game {
    pub open spec fn can_add_trick(self, id: i64) -> bool {
        ||| !self.has_user(id)
        ||| self.participant_of(id).tricks@.len() < MAX_TRICKS
    }

    /// How `post` relates to `pre` after `user` registered `name`.
    pub open spec fn trick_added(pre: Game, post: Game, user: GameUser, name: String) -> bool {
        &&& post.is_started
        &&& post.game_message == pre.game_message
        &&& post.proof_challenge == pre.proof_challenge
        &&& if pre.has_user(user.id) {
            let j = pre.user_index(user.id);
            &&& post.users == pre.users
            &&& post.slots@.len() == pre.slots@.len()
            &&& post.slots@[j].tricks@ == pre.slots@[j].tricks@.push(
                Trick { name: name, edited: false },
            )
            &&& post.slots@[j].proofs == pre.slots@[j].proofs
            &&& forall|k: int|
                0 <= k < pre.slots@.len() && k != j ==> post.slots@[k] == pre.slots@[k]
        } else {
            &&& post.users@ == pre.users@.push(user)
            &&& post.slots@.len() == pre.slots@.len() + 1
            &&& post.slots@.subrange(0, pre.slots@.len() as int) == pre.slots@
            &&& post.slots@.last().tricks@ == seq![Trick { name: name, edited: false }]
            &&& post.slots@.last().proofs@ == Seq::<Proof>::empty()
        }
    }

    /// Registers one trick for `user`, creating the participant on first
    /// sight, and starts the game. Rejected exactly when the participant
    /// already holds `MAX_TRICKS` tricks.
    pub fn add_trick(&mut self, user: &GameUser, name: String) -> (r: Result<(), Rejection>)
        requires
            old(self).wf(),
        ensures
            final(self).wf(),
            final(self).users@.len() >= old(self).users@.len(),
            match r {
                Ok(()) => old(self).can_add_trick(user.id) && Game::trick_added(
                    *old(self),
                    *final(self),
                    *user,
                    name,
                ),
                Err(e) => {
                    &&& e == Rejection::TrickCapReached
                    &&& !old(self).can_add_trick(user.id)
                    &&& *final(self) == *old(self)
                },
            },
    {
        match self.slot_of(user.id) {
            Some(j) => {
                if self.slots[j].tricks.len() >= MAX_TRICKS {
                    return Err(Rejection::TrickCapReached);
                }
                self.slots[j].tricks.push(Trick { name, edited: false });
                self.is_started = true;
                proof {
                    lemma_same_proofs_keep_uniqueness(*old(self), *self);
                    assert(final(self).challenge_wf()) by {
                        challenge_target_stable(*old(self), *self);
                    }
                }
                Ok(())
            },
            None => {
                let j = self.slots.len();
                proof {
                    assert forall|i: int|
                        0 <= i < id_entries(old(self).lookup).len() implies (#[trigger] id_entries(
                        old(self).lookup,
                    )[i]).0 != user.id by {
                        assert(id_entries(old(self).lookup)[i] == (old(self).users@[i].id,
                        i as usize));
                    }
                }
                id_index_insert(&mut self.lookup, user.id, j);
                self.users.push(user.clone());
                let mut tricks: Vec<Trick> = Vec::new();
                tricks.push(Trick { name, edited: false });
                self.slots.push(Participant { tricks, proofs: Vec::new() });
                self.is_started = true;
                proof {
                    let pre = *old(self);
                    let post = *self;
                    assert(post.slots@.subrange(0, pre.slots@.len() as int) =~= pre.slots@);
                    assert(post.slots@.last().tricks@ =~= seq![
                        Trick { name: name, edited: false },
                    ]);
                    assert forall|a: int, b: int|
                        0 <= a < b < post.users@.len() implies post.users@[a].id
                        != post.users@[b].id by {
                        if b == post.users@.len() - 1 {
                            assert(post.users@[a] == pre.users@[a]);
                        }
                    }
                    lemma_same_proofs_keep_uniqueness(pre, post);
                    assert(final(self).challenge_wf()) by {
                        challenge_target_stable(pre, post);
                    }
                }
                Ok(())
            },
        }
    }
}

/// The tricks a batch of names turns into: the first `k` names, in order,
/// each a fresh unedited trick.
pub open spec fn new_tricks(names: Seq<String>, k: int) -> Seq<Trick> {
    Seq::new(k as nat, |i: int| Trick { name: names[i], edited: false })
}

impl Game {
    /// How many more tricks this user may register.
    pub open spec fn trick_room(self, id: i64) -> int {
        if self.has_user(id) {
            MAX_TRICKS - self.participant_of(id).tricks@.len()
        } else {
            MAX_TRICKS as int
        }
    }

    /// How `post` relates to `pre` after a batch of `names` was offered: the
    /// first `added` of them are appended as tricks — as many as the cap
    /// leaves room for — and everything already applied stays applied.
    pub open spec fn tricks_extended(
        pre: Game,
        post: Game,
        user: GameUser,
        names: Seq<String>,
        added: int,
    ) -> bool {
        &&& added == if names.len() <= pre.trick_room(user.id) {
            names.len() as int
        } else {
            pre.trick_room(user.id)
        }
        &&& if added == 0 {
            post == pre
        } else {
            &&& post.is_started
            &&& post.game_message == pre.game_message
            &&& post.proof_challenge == pre.proof_challenge
            &&& if pre.has_user(user.id) {
                let j = pre.user_index(user.id);
                &&& post.users == pre.users
                &&& post.slots@.len() == pre.slots@.len()
                &&& post.slots@[j].tricks@ == pre.slots@[j].tricks@ + new_tricks(names, added)
                &&& post.slots@[j].proofs == pre.slots@[j].proofs
                &&& forall|k: int|
                    0 <= k < pre.slots@.len() && k != j ==> post.slots@[k] == pre.slots@[k]
            } else {
                &&& post.users@ == pre.users@.push(user)
                &&& post.slots@.len() == pre.slots@.len() + 1
                &&& post.slots@.subrange(0, pre.slots@.len() as int) == pre.slots@
                &&& post.slots@.last().tricks@ == new_tricks(names, added)
                &&& post.slots@.last().proofs@ == Seq::<Proof>::empty()
            }
        }
    }

    /// Registers a batch of tricks, one per name, in order, stopping at the
    /// cap: what was applied before the cap was hit stays applied. Returns
    /// how many names were taken.
    pub fn add_tricks(&mut self, user: &GameUser, names: &Vec<String>) -> (added: usize)
        requires
            old(self).wf(),
        ensures
            final(self).wf(),
            Game::tricks_extended(*old(self), *final(self), *user, names@, added as int),
    {
        let mut i: usize = 0;
        let mut added: usize = 0;
        while i < names.len()
            invariant
                old(self).wf(),
                self.wf(),
                i <= names@.len(),
                added <= i,
                added as int == if i as int <= old(self).trick_room(user.id) {
                    i as int
                } else {
                    old(self).trick_room(user.id)
                },
                Game::tricks_extended(
                    *old(self),
                    *self,
                    *user,
                    names@.subrange(0, i as int),
                    added as int,
                ),
            decreases names@.len() - i,
        {
            let ghost pre = *old(self);
            let ghost cur = *self;
            let r = self.add_trick(user, names[i].clone());
            proof {
                let stepped = names@.subrange(0, i + 1);
                assert(stepped.drop_last() =~= names@.subrange(0, i as int));
                lemma_batch_step(pre, cur, *self, *user, names@, i as int, added as int, r is Ok);
            }
            match r {
                Ok(()) => {
                    added = added + 1;
                },
                Err(_) => {},
            }
            i += 1;
        }
        proof {
            assert(names@.subrange(0, names@.len() as int) =~= names@);
        }
        added
    }
}

/// One step of a batch add: extending a partially applied batch by one more
/// name keeps the batch relation, whether the step was taken or hit the cap.
proof fn lemma_batch_step(
    pre: Game,
    cur: Game,
    post: Game,
    user: GameUser,
    names: Seq<String>,
    i: int,
    added: int,
    stepped: bool,
)
    requires
        pre.wf(),
        cur.wf(),
        0 <= i < names.len(),
        added == if i <= pre.trick_room(user.id) {
            i
        } else {
            pre.trick_room(user.id)
        },
        Game::tricks_extended(pre, cur, user, names.subrange(0, i), added),
        stepped == cur.can_add_trick(user.id),
        stepped ==> Game::trick_added(cur, post, user, names[i]),
        !stepped ==> post == cur,
    ensures
        Game::tricks_extended(
            pre,
            post,
            user,
            names.subrange(0, i + 1),
            if stepped {
                added + 1
            } else {
                added
            },
        ),
{
    let room = pre.trick_room(user.id);
    let prefix = names.subrange(0, i);
    let longer = names.subrange(0, i + 1);
    assert(longer.drop_last() =~= prefix);
    assert(longer.last() == names[i]);
    if added == 0 {
        assert(cur == pre);
        if stepped {
            if pre.has_user(user.id) {
                let j = pre.user_index(user.id);
                assert(post.slots@[j].tricks@ =~= pre.slots@[j].tricks@ + new_tricks(longer, 1));
            } else {
                assert(post.slots@.last().tricks@ =~= new_tricks(longer, 1));
            }
        } else {
            assert(room == 0);
            assert(pre.has_user(user.id));
        }
    } else {
        // some names were applied already, so the user exists in `cur`
        if pre.has_user(user.id) {
            let j = pre.user_index(user.id);
            assert(cur.users == pre.users);
            assert(cur.has_user(user.id) && cur.user_index(user.id) == j) by {
                assert(cur.users@[j].id == user.id);
                let j2 = cur.user_index(user.id);
                if j2 != j {
                    assert(cur.users@[j2].id != cur.users@[j].id);
                }
            }
            assert(cur.slots@[j].tricks@.len() == pre.slots@[j].tricks@.len() + added);
            if stepped {
                assert(post.slots@[j].tricks@ =~= pre.slots@[j].tricks@ + new_tricks(
                    longer,
                    added + 1,
                ));
                assert(post.users == pre.users);
            } else {
                assert(cur.slots@[j].tricks@.len() >= MAX_TRICKS);
                assert(added == room);
                assert(new_tricks(longer, added) =~= new_tricks(prefix, added));
            }
        } else {
            let j = pre.users@.len() as int;
            assert(cur.users@ == pre.users@.push(user));
            assert(cur.users@[j].id == user.id);
            assert(cur.has_user(user.id) && cur.user_index(user.id) == j) by {
                let j2 = cur.user_index(user.id);
                if j2 != j {
                    assert(cur.users@[j2].id != cur.users@[j].id);
                }
            }
            assert(cur.slots@[j] == cur.slots@.last());
            assert(cur.slots@[j].tricks@.len() == added);
            if stepped {
                assert(post.users@ =~= pre.users@.push(user));
                assert(post.slots@.subrange(0, pre.slots@.len() as int) =~= pre.slots@) by {
                    assert(post.slots@.len() == cur.slots@.len());
                    assert forall|x: int| 0 <= x < pre.slots@.len() implies post.slots@.subrange(
                        0,
                        pre.slots@.len() as int,
                    )[x] == pre.slots@[x] by {
                        assert(post.slots@[x] == cur.slots@[x]);
                        assert(cur.slots@.subrange(0, pre.slots@.len() as int)[x]
                            == pre.slots@[x]);
                    }
                }
                assert(post.slots@.last().tricks@ =~= new_tricks(longer, added + 1));
                assert(post.slots@.last().proofs == cur.slots@[j].proofs);
            } else {
                assert(cur.slots@[j].tricks@.len() >= MAX_TRICKS);
                assert(added == room);
                assert(new_tricks(longer, added) =~= new_tricks(prefix, added));
            }
        }
    }
}

/// If every slot keeps the same proof sequence (new slots, if any, have
/// none), message uniqueness carries over.
proof fn lemma_same_proofs_keep_uniqueness(pre: Game, post: Game)
    requires
        pre.proof_msgs_unique(),
        post.slots@.len() >= pre.slots@.len(),
        forall|j: int|
            0 <= j < pre.slots@.len() ==> (#[trigger] post.slots@[j]).proofs@
                == pre.slots@[j].proofs@,
        forall|j: int|
            pre.slots@.len() <= j < post.slots@.len() ==> (#[trigger] post.slots@[j]).proofs@.len()
                == 0,
    ensures
        post.proof_msgs_unique(),
{
    assert forall|j1: int, k1: int, j2: int, k2: int|
        (0 <= j1 < post.slots@.len() && 0 <= k1 < post.slots@[j1].proofs@.len() && 0 <= j2
            < post.slots@.len() && 0 <= k2 < post.slots@[j2].proofs@.len() && (j1 != j2 || k1
            != k2)) implies #[trigger] post.slots@[j1].proofs@[k1].msg
        != #[trigger] post.slots@[j2].proofs@[k2].msg by {
        assert(j1 < pre.slots@.len() && j2 < pre.slots@.len());
        assert(pre.slots@[j1].proofs@[k1].msg != pre.slots@[j2].proofs@[k2].msg);
    }
}

/// A game change that keeps the users' ids, the challenge, and every proof
/// list keeps the challenge's target in place.
proof fn challenge_target_stable(pre: Game, post: Game)
    requires
        pre.wf(),
        post.proof_challenge == pre.proof_challenge,
        post.users@.len() >= pre.users@.len(),
        post.slots@.len() == post.users@.len(),
        pre.users@.len() == pre.slots@.len(),
        post.ids_distinct(),
        forall|j: int| 0 <= j < pre.users@.len() ==> post.users@[j] == pre.users@[j],
        forall|j: int|
            0 <= j < pre.slots@.len() ==> (#[trigger] post.slots@[j]).proofs@
                == pre.slots@[j].proofs@,
    ensures
        post.challenge_wf(),
{
    match pre.proof_challenge {
        None => {},
        Some(ch) => {
            let j = pre.user_index(ch.user.id);
            assert(0 <= j < pre.users@.len() && pre.users@[j].id == ch.user.id);
            assert(post.users@[j].id == ch.user.id);
            assert(post.has_user(ch.user.id));
            let j2 = post.user_index(ch.user.id);
            assert(0 <= j2 < post.users@.len() && post.users@[j2].id == ch.user.id);
            if j2 != j {
                assert(post.users@[j2].id != post.users@[j].id);
            }
            assert(post.participant_of(ch.user.id).proofs@ == pre.participant_of(
                ch.user.id,
            ).proofs@);
            let k = choose|k: int|
                0 <= k < pre.participant_of(ch.user.id).proofs@.len() && (
                #[trigger] pre.participant_of(ch.user.id).proofs@[k]).msg == ch.proof.msg;
            assert(post.participant_of(ch.user.id).proofs@[k].msg == ch.proof.msg);
        },
    }
}

impl Game {
    /// Whether `n` is a live trick number: its derived participant index and
    /// slot both land on something registered.
    pub open spec fn valid_trick_number(self, n: int) -> bool {
        &&& n >= 1
        &&& trick_owner_index(n) < self.slots@.len()
        &&& trick_slot_index(n) < self.slots@[trick_owner_index(n)].tricks@.len()
    }

    /// The trick a number names, if any.
    pub open spec fn spec_trick_by_number(self, n: int) -> Option<Trick> {
        if self.valid_trick_number(n) {
            Some(self.slots@[trick_owner_index(n)].tricks@[trick_slot_index(n)])
        } else {
            None
        }
    }

    /// Resolves a human trick number: `(n-1) / MAX_TRICKS` picks the
    /// participant by insertion order, `(n-1) % MAX_TRICKS` the slot. None
    /// for zero or anything out of range.
    pub fn trick_by_number(&self, number: usize) -> (r: Option<Trick>)
        ensures
            r == self.spec_trick_by_number(number as int),
    {
        if number == 0 {
            return None;
        }
        let idx = number - 1;
        let pi = idx / MAX_TRICKS;
        let ti = idx % MAX_TRICKS;
        if pi >= self.slots.len() {
            return None;
        }
        if ti >= self.slots[pi].tricks.len() {
            return None;
        }
        Some(self.slots[pi].tricks[ti].clone())
    }

    /// The exact verdict a rename request gets, in the order the checks run:
    /// an unknown owner position, then ownership, then existence of the slot,
    /// then the one-shot edit lock.
    pub open spec fn rename_decision(self, requester_id: i64, n: int) -> Result<(), Rejection> {
        let j = trick_owner_index(n);
        let t = trick_slot_index(n);
        if n < 1 || j >= self.users@.len() {
            Err(Rejection::NoSuchTrick)
        } else if self.users@[j].id != requester_id {
            Err(Rejection::NotYourTrick)
        } else if t >= self.slots@[j].tricks@.len() {
            Err(Rejection::NoSuchTrick)
        } else if self.slots@[j].tricks@[t].edited {
            Err(Rejection::AlreadyEdited)
        } else {
            Ok(())
        }
    }

    /// How `post` relates to `pre` after trick `n` was renamed to `new_name`:
    /// that one slot holds the new name with its edit lock set, everything
    /// else is untouched.
    pub open spec fn trick_renamed(pre: Game, post: Game, n: int, new_name: String) -> bool {
        let j = trick_owner_index(n);
        let t = trick_slot_index(n);
        &&& post.users == pre.users
        &&& post.slots@.len() == pre.slots@.len()
        &&& post.slots@[j].tricks@ == pre.slots@[j].tricks@.update(
            t,
            Trick { name: new_name, edited: true },
        )
        &&& post.slots@[j].proofs == pre.slots@[j].proofs
        &&& forall|k: int| 0 <= k < pre.slots@.len() && k != j ==> post.slots@[k] == pre.slots@[k]
        &&& post.is_started == pre.is_started
        &&& post.game_message == pre.game_message
        &&& post.proof_challenge == pre.proof_challenge
    }

    /// Renames a trick by its number. Only the owner may rename, and only
    /// once per trick: a successful rename sets the permanent `edited` mark.
    pub fn update_trick_name(
        &mut self,
        requester: &GameUser,
        number: usize,
        new_name: String,
    ) -> (r: Result<(), Rejection>)
        requires
            old(self).wf(),
        ensures
            final(self).wf(),
            r == old(self).rename_decision(requester.id, number as int),
            r is Ok ==> Game::trick_renamed(*old(self), *final(self), number as int, new_name),
            r is Err ==> *final(self) == *old(self),
    {
        if number == 0 {
            return Err(Rejection::NoSuchTrick);
        }
        let idx = number - 1;
        let pi = idx / MAX_TRICKS;
        let ti = idx % MAX_TRICKS;
        if pi >= self.users.len() {
            return Err(Rejection::NoSuchTrick);
        }
        if self.users[pi].id != requester.id {
            return Err(Rejection::NotYourTrick);
        }
        if ti >= self.slots[pi].tricks.len() {
            return Err(Rejection::NoSuchTrick);
        }
        if self.slots[pi].tricks[ti].edited {
            return Err(Rejection::AlreadyEdited);
        }
        self.slots[pi].tricks[ti] = Trick { name: new_name, edited: true };
        proof {
            lemma_same_proofs_keep_uniqueness(*old(self), *self);
            challenge_target_stable(*old(self), *self);
        }
        Ok(())
    }
}

/// Distinct trick numbers never share a (participant, slot) pair: numbering
/// is injective wherever it resolves.
pub proof fn lemma_trick_numbering_injective(n1: int, n2: int)
    requires
        n1 >= 1,
        n2 >= 1,
        n1 != n2,
    ensures
        trick_owner_index(n1) != trick_owner_index(n2) || trick_slot_index(n1) != trick_slot_index(
            n2,
        ),
{
    let d = MAX_TRICKS as int;
    if trick_owner_index(n1) == trick_owner_index(n2) && trick_slot_index(n1) == trick_slot_index(
        n2,
    ) {
        vstd::arithmetic::div_mod::lemma_fundamental_div_mod(n1 - 1, d);
        vstd::arithmetic::div_mod::lemma_fundamental_div_mod(n2 - 1, d);
        assert(n1 - 1 == d * trick_owner_index(n1) + trick_slot_index(n1));
        assert(n2 - 1 == d * trick_owner_index(n2) + trick_slot_index(n2));
        assert(false);
    }
}

/// Every registered trick is reachable: the slot `t` of participant `j`
/// answers to number `MAX_TRICKS * j + t + 1`, and to no other.
pub proof fn lemma_trick_number_of_slot(g: Game, j: int, t: int)
    requires
        g.wf(),
        0 <= j < g.slots@.len(),
        0 <= t < g.slots@[j].tricks@.len(),
    ensures
        g.valid_trick_number(MAX_TRICKS as int * j + t + 1),
        trick_owner_index(MAX_TRICKS as int * j + t + 1) == j,
        trick_slot_index(MAX_TRICKS as int * j + t + 1) == t,
        g.spec_trick_by_number(MAX_TRICKS as int * j + t + 1) == Some(g.slots@[j].tricks@[t]),
{
    let d = MAX_TRICKS as int;
    let n = d * j + t + 1;
    assert(g.slots@[j].tricks@.len() <= MAX_TRICKS);
    assert(n - 1 == j * d + t) by (nonlinear_arith)
        requires
            n == d * j + t + 1,
    ;
    vstd::arithmetic::div_mod::lemma_fundamental_div_mod_converse(n - 1, d, j, t);
}

/// The total number of registered tricks, over all participants in order.
pub open spec fn tricks_total(slots: Seq<Participant>) -> int
    decreases slots.len(),
{
    if slots.len() == 0 {
        0
    } else {
        tricks_total(slots.drop_last()) + slots.last().tricks@.len()
    }
}

proof fn lemma_full_slots_total(slots: Seq<Participant>)
    requires
        forall|j: int| 0 <= j < slots.len() ==> (#[trigger] slots[j]).tricks@.len() == MAX_TRICKS,
    ensures
        tricks_total(slots) == MAX_TRICKS as int * slots.len(),
    decreases slots.len(),
{
    if slots.len() > 0 {
        lemma_full_slots_total(slots.drop_last());
    }
}

/// While tricks are added in filled order (every participant but the last
/// holds a full hand), the numbers 1 through the total each name a trick.
pub proof fn lemma_numbering_dense(g: Game, n: int)
    requires
        g.wf(),
        forall|j: int|
            0 <= j < g.slots@.len() - 1 ==> (#[trigger] g.slots@[j]).tricks@.len() == MAX_TRICKS,
        1 <= n <= tricks_total(g.slots@),
    ensures
        g.valid_trick_number(n),
{
    let d = MAX_TRICKS as int;
    let slots = g.slots@;
    let last = slots.len() - 1;
    assert(slots.len() > 0) by {
        if slots.len() == 0 {
            assert(tricks_total(slots) == 0);
        }
    }
    assert forall|j: int| 0 <= j < slots.drop_last().len() implies (#[trigger] slots.drop_last()[
        j
    ]).tricks@.len() == MAX_TRICKS by {
        assert(slots.drop_last()[j] == slots[j]);
    }
    lemma_full_slots_total(slots.drop_last());
    assert(tricks_total(slots) == d * last + slots[last].tricks@.len());
    if n - 1 < d * last {
        vstd::arithmetic::div_mod::lemma_fundamental_div_mod(n - 1, d);
        vstd::arithmetic::div_mod::lemma_mod_bound(n - 1, d);
        let q = trick_owner_index(n);
        let r = trick_slot_index(n);
        assert(n - 1 == d * q + r);
        assert(q < last) by (nonlinear_arith)
            requires
                d * q + r == n - 1,
                n - 1 < d * last,
                0 <= r < d,
                d > 0,
        ;
        assert(slots[q].tricks@.len() == MAX_TRICKS);
    } else {
        let r = n - 1 - d * last;
        assert(0 <= r < slots[last].tricks@.len());
        assert(r < d);
        assert(n - 1 == last * d + r) by (nonlinear_arith)
            requires
                r == n - 1 - d * last,
        ;
        vstd::arithmetic::div_mod::lemma_fundamental_div_mod_converse(n - 1, d, last, r);
    }
}

/// A rename is a single-use right. Once the trick a number names carries the
/// edit mark, no rename of that number succeeds again, whoever asks; the
/// owner is told of the edit conflict itself.
pub proof fn lemma_rename_single_use(g: Game, requester_id: i64, n: int)
    requires
        g.users@.len() == g.slots@.len(),
        g.spec_trick_by_number(n) matches Some(t) && t.edited,
    ensures
        g.rename_decision(requester_id, n) is Err,
        g.users@[trick_owner_index(n)].id == requester_id ==> g.rename_decision(requester_id, n)
            == Err::<(), Rejection>(Rejection::AlreadyEdited),
{
}

/// Two rename calls on one number never both succeed: whatever a first
/// successful rename wrote, the second attempt is rejected.
pub proof fn lemma_rename_twice_rejected(
    pre: Game,
    post: Game,
    n: int,
    new_name: String,
    second_requester: i64,
)
    requires
        pre.wf(),
        post.users@.len() == post.slots@.len(),
        pre.valid_trick_number(n),
        Game::trick_renamed(pre, post, n, new_name),
    ensures
        post.rename_decision(second_requester, n) is Err,
{
    assert(post.slots@[trick_owner_index(n)].tricks@[trick_slot_index(n)].edited);
    lemma_rename_single_use(post, second_requester, n);
}

/// Renaming one trick moves no other: every other number resolves exactly as
/// before, so the numbering scheme is stable under renames.
pub proof fn lemma_rename_preserves_numbering(
    pre: Game,
    post: Game,
    n: int,
    new_name: String,
    m: int,
)
    requires
        pre.wf(),
        pre.valid_trick_number(n),
        Game::trick_renamed(pre, post, n, new_name),
        m != n,
    ensures
        post.spec_trick_by_number(m) == pre.spec_trick_by_number(m),
{
    if m >= 1 {
        lemma_trick_numbering_injective(n, m);
        let jn = trick_owner_index(n);
        let jm = trick_owner_index(m);
        if jm == jn {
            assert(post.slots@[jm].tricks@.len() == pre.slots@[jm].tricks@.len());
            if trick_slot_index(m) < pre.slots@[jm].tricks@.len() {
                assert(post.slots@[jm].tricks@[trick_slot_index(m)] == pre.slots@[jm].tricks@[
                    trick_slot_index(m)
                ]);
            }
        } else {
            vstd::arithmetic::div_mod::lemma_mod_bound(m - 1, MAX_TRICKS as int);
            if 0 <= jm < pre.slots@.len() {
                assert(post.slots@[jm] == pre.slots@[jm]);
            }
        }
    }
}

/// The numbers of `ns`, in order and with multiplicity, that `p`'s proofs
/// already cover.
pub open spec fn covered_numbers(p: Participant, ns: Seq<usize>) -> Seq<usize>
    decreases ns.len(),
{
    if ns.len() == 0 {
        Seq::empty()
    } else {
        let rest = covered_numbers(p, ns.drop_last());
        if covers(p, ns.last()) {
            rest.push(ns.last())
        } else {
            rest
        }
    }
}

/// The numbers of `ns`, in order and with multiplicity, that no proof of
/// `p` covers yet.
pub open spec fn uncovered_numbers(p: Participant, ns: Seq<usize>) -> Seq<usize>
    decreases ns.len(),
{
    if ns.len() == 0 {
        Seq::empty()
    } else {
        let rest = uncovered_numbers(p, ns.drop_last());
        if !covers(p, ns.last()) {
            rest.push(ns.last())
        } else {
            rest
        }
    }
}

/// What one proof submission reports back: the numbers that were already
/// proven (and therefore skipped), and the pairs of number and trick name the
/// new proof covers.
#[derive(Debug)]
pub struct ProofOutcome {
    pub already_proven: Vec<usize>,
    pub proven: Vec<(usize, String)>,
}

impl Game {
    /// The requested numbers that make it into a new proof: valid ones, first
    /// occurrence only, in request order.
    pub open spec fn accepted_numbers(self, ns: Seq<usize>) -> Seq<usize>
        decreases ns.len(),
    {
        if ns.len() == 0 {
            Seq::empty()
        } else {
            let rest = self.accepted_numbers(ns.drop_last());
            let n = ns.last();
            if self.valid_trick_number(n as int) && !rest.contains(n) {
                rest.push(n)
            } else {
                rest
            }
        }
    }

    /// The name of the trick a valid number names.
    pub open spec fn spec_trick_name(self, n: int) -> String {
        self.slots@[trick_owner_index(n)].tricks@[trick_slot_index(n)].name
    }

    /// Whether this user's proofs cover trick number `n`.
    pub fn is_trick_proven(&self, participant: &GameUser, trick: usize) -> (r: bool)
        requires
            self.wf(),
        ensures
            r == (self.has_user(participant.id) && covers(
                self.participant_of(participant.id),
                trick,
            )),
    {
        let j = match self.slot_of(participant.id) {
            Some(j) => j,
            None => {
                return false;
            },
        };
        let p = &self.slots[j];
        let mut k: usize = 0;
        while k < p.proofs.len()
            invariant
                self.wf(),
                j < self.slots@.len(),
                j == self.user_index(participant.id),
                self.has_user(participant.id),
                p == &self.slots@[j as int],
                k <= p.proofs@.len(),
                forall|k0: int, t0: int|
                    0 <= k0 < k && 0 <= t0 < p.proofs@[k0].tricks_proven@.len()
                        ==> p.proofs@[k0].tricks_proven@[t0] != trick,
            decreases p.proofs@.len() - k,
        {
            let nums = &p.proofs[k].tricks_proven;
            let mut t: usize = 0;
            while t < nums.len()
                invariant
                    self.wf(),
                    j < self.slots@.len(),
                    j == self.user_index(participant.id),
                    self.has_user(participant.id),
                    p == &self.slots@[j as int],
                    t <= nums@.len(),
                    nums@ == p.proofs@[k as int].tricks_proven@,
                    k < p.proofs@.len(),
                    forall|t0: int| 0 <= t0 < t ==> nums@[t0] != trick,
                decreases nums@.len() - t,
            {
                if nums[t] == trick {
                    proof {
                        let pp = self.participant_of(participant.id);
                        assert(pp == self.slots@[j as int]);
                        assert(pp.proofs@[k as int].tricks_proven@[t as int] == trick);
                        assert(covers(pp, trick));
                    }
                    return true;
                }
                t += 1;
            }
            k += 1;
        }
        false
    }

    /// Whether this user already backed a proof with this very message.
    pub fn proof_exists(&self, participant: &GameUser, src_message: &GameMessage) -> (r: bool)
        requires
            self.wf(),
        ensures
            r == (self.has_user(participant.id) && msg_backed_by(
                self.participant_of(participant.id),
                *src_message,
            )),
    {
        let j = match self.slot_of(participant.id) {
            Some(j) => j,
            None => {
                return false;
            },
        };
        let p = &self.slots[j];
        let mut k: usize = 0;
        while k < p.proofs.len()
            invariant
                self.wf(),
                j < self.slots@.len(),
                j == self.user_index(participant.id),
                self.has_user(participant.id),
                p == &self.slots@[j as int],
                k <= p.proofs@.len(),
                forall|k0: int| 0 <= k0 < k ==> (#[trigger] p.proofs@[k0]).msg != *src_message,
            decreases p.proofs@.len() - k,
        {
            if p.proofs[k].msg.id == src_message.id && p.proofs[k].msg.chat_id
                == src_message.chat_id {
                proof {
                    let pp = self.participant_of(participant.id);
                    assert(pp == self.slots@[j as int]);
                    assert(pp.proofs@[k as int].msg == *src_message);
                    assert(msg_backed_by(pp, *src_message));
                }
                return true;
            }
            k += 1;
        }
        false
    }

    /// Finds the one participant, if any, whose proof carries this message,
    /// and hands back copies of the user, the record and the proof.
    pub fn find_participant_and_proof_by_msg(&self, msg: &GameMessage) -> (r: Option<
        (GameUser, Participant, Proof),
    >)
        requires
            self.wf(),
        ensures
            match r {
                Some(found) => {
                    &&& self.has_user(found.0.id)
                    &&& found.0 == self.users@[self.user_index(found.0.id)]
                    &&& crate::types::participant_eq(found.1, self.participant_of(found.0.id))
                    &&& found.2.msg == *msg
                    &&& msg_backed_by(self.participant_of(found.0.id), *msg)
                    &&& exists|k: int|
                        0 <= k < self.participant_of(found.0.id).proofs@.len()
                            && crate::types::proof_eq(
                            found.2,
                            #[trigger] self.participant_of(found.0.id).proofs@[k],
                        )
                },
                None => forall|j: int|
                    0 <= j < self.slots@.len() ==> !msg_backed_by(#[trigger] self.slots@[j], *msg),
            },
    {
        let mut j: usize = 0;
        while j < self.slots.len()
            invariant
                self.wf(),
                j <= self.slots@.len(),
                forall|j0: int|
                    0 <= j0 < j ==> !msg_backed_by(#[trigger] self.slots@[j0], *msg),
            decreases self.slots@.len() - j,
        {
            let p = &self.slots[j];
            let mut k: usize = 0;
            while k < p.proofs.len()
                invariant
                    self.wf(),
                    j < self.slots@.len(),
                    k <= p.proofs@.len(),
                    p == &self.slots@[j as int],
                    forall|k0: int| 0 <= k0 < k ==> (#[trigger] p.proofs@[k0]).msg != *msg,
                decreases p.proofs@.len() - k,
            {
                if p.proofs[k].msg.id == msg.id && p.proofs[k].msg.chat_id == msg.chat_id {
                    proof {
                        assert(self.slots@[j as int].proofs@[k as int].msg == *msg);
                        let id = self.users@[j as int].id;
                        assert(self.has_user(id));
                        let j2 = self.user_index(id);
                        if j2 != j as int {
                            assert(self.users@[j2].id != self.users@[j as int].id);
                        }
                    }
                    return Some((self.users[j].clone(), self.slots[j].clone(), p.proofs[k].clone()));
                }
                k += 1;
            }
            j += 1;
        }
        None
    }

    /// How `post` relates to `pre` after `id` gained one proof with message
    /// `m` covering the numbers `ns`: that proof is appended, nothing else
    /// moves.
    pub open spec fn proof_appended(
        pre: Game,
        post: Game,
        id: i64,
        m: GameMessage,
        ns: Seq<usize>,
    ) -> bool {
        let j = pre.user_index(id);
        &&& post.users == pre.users
        &&& post.slots@.len() == pre.slots@.len()
        &&& post.slots@[j].tricks == pre.slots@[j].tricks
        &&& post.slots@[j].proofs@.len() == pre.slots@[j].proofs@.len() + 1
        &&& post.slots@[j].proofs@.drop_last() == pre.slots@[j].proofs@
        &&& post.slots@[j].proofs@.last().msg == m
        &&& post.slots@[j].proofs@.last().tricks_proven@ == ns
        &&& forall|k: int| 0 <= k < pre.slots@.len() && k != j ==> post.slots@[k] == pre.slots@[k]
        &&& post.is_started == pre.is_started
        &&& post.game_message == pre.game_message
        &&& post.proof_challenge == pre.proof_challenge
    }

    /// Stores one proof for this user: the requested numbers are reduced to
    /// the valid ones, first occurrences only, and the pairs of number and
    /// trick name are returned. With nothing valid, or for an unknown user,
    /// nothing is stored; the names found are still returned. The message
    /// must be fresh — one video backs at most one proof in the game —
    /// which `submit_proof` checks before it calls here.
    pub fn prove_tricks(
        &mut self,
        participant: &GameUser,
        message: &GameMessage,
        tricks: Vec<usize>,
    ) -> (r: Vec<(usize, String)>)
        requires
            old(self).wf(),
            forall|j: int|
                0 <= j < old(self).slots@.len() ==> !msg_backed_by(
                    #[trigger] old(self).slots@[j],
                    *message,
                ),
        ensures
            final(self).wf(),
            r@.len() == old(self).accepted_numbers(tricks@).len(),
            forall|i: int|
                0 <= i < r@.len() ==> (#[trigger] r@[i]).0 == old(self).accepted_numbers(tricks@)[i]
                    && r@[i].1 == old(self).spec_trick_name(
                    old(self).accepted_numbers(tricks@)[i] as int,
                ),
            ({
                let acc = old(self).accepted_numbers(tricks@);
                if acc.len() == 0 || !old(self).has_user(participant.id) {
                    *final(self) == *old(self)
                } else {
                    Game::proof_appended(*old(self), *final(self), participant.id, *message, acc)
                }
            }),
    {
        let ghost whole = tricks@;
        let mut accepted: Vec<usize> = Vec::new();
        let mut names: Vec<(usize, String)> = Vec::new();
        let mut i: usize = 0;
        while i < tricks.len()
            invariant
                i <= tricks@.len(),
                accepted@ == self.accepted_numbers(tricks@.subrange(0, i as int)),
                names@.len() == accepted@.len(),
                forall|x: int|
                    0 <= x < names@.len() ==> (#[trigger] names@[x]).0 == accepted@[x]
                        && names@[x].1 == self.spec_trick_name(accepted@[x] as int),
            decreases tricks@.len() - i,
        {
            let n = tricks[i];
            proof {
                assert(tricks@.subrange(0, i + 1).drop_last() =~= tricks@.subrange(0, i as int));
                assert(tricks@.subrange(0, i + 1).last() == tricks@[i as int]);
            }
            match self.trick_by_number(n) {
                Some(t) => {
                    if !contains_num(&accepted, n) {
                        accepted.push(n);
                        names.push((n, t.name));
                    }
                },
                None => {},
            }
            i += 1;
        }
        proof {
            assert(tricks@.subrange(0, tricks@.len() as int) =~= tricks@);
        }
        if accepted.len() == 0 {
            return names;
        }
        let j = match self.slot_of(participant.id) {
            Some(j) => j,
            None => {
                return names;
            },
        };
        self.slots[j].proofs.push(Proof { msg: *message, tricks_proven: accepted });
        proof {
            let pre = *old(self);
            let post = *self;
            let ji = j as int;
            assert(post.slots@[ji].proofs@.drop_last() =~= pre.slots@[ji].proofs@);
            assert forall|j1: int, k1: int, j2: int, k2: int|
                (0 <= j1 < post.slots@.len() && 0 <= k1 < post.slots@[j1].proofs@.len() && 0 <= j2
                    < post.slots@.len() && 0 <= k2 < post.slots@[j2].proofs@.len() && (j1 != j2
                    || k1 != k2)) implies #[trigger] post.slots@[j1].proofs@[k1].msg
                != #[trigger] post.slots@[j2].proofs@[k2].msg by {
                if j1 == ji && k1 == pre.slots@[ji].proofs@.len() {
                    assert(post.slots@[j1].proofs@[k1].msg == *message);
                    assert(post.slots@[j2].proofs@[k2].msg == pre.slots@[j2].proofs@[k2].msg);
                    assert(!msg_backed_by(pre.slots@[j2], *message));
                } else if j2 == ji && k2 == pre.slots@[ji].proofs@.len() {
                    assert(post.slots@[j2].proofs@[k2].msg == *message);
                    assert(post.slots@[j1].proofs@[k1].msg == pre.slots@[j1].proofs@[k1].msg);
                    assert(!msg_backed_by(pre.slots@[j1], *message));
                } else {
                    assert(post.slots@[j1].proofs@[k1].msg == pre.slots@[j1].proofs@[k1].msg);
                    assert(post.slots@[j2].proofs@[k2].msg == pre.slots@[j2].proofs@[k2].msg);
                }
            }
            assert forall|jj: int|
                0 <= jj < pre.slots@.len() implies pre.slots@[jj].proofs@.is_prefix_of(
                (#[trigger] post.slots@[jj]).proofs@,
            ) by {
                if jj == ji {
                    assert(post.slots@[jj].proofs@.drop_last() =~= pre.slots@[jj].proofs@);
                }
            }
            challenge_target_stable_prefix(pre, post);
        }
        names
    }
}

impl Game {
    /// The exact verdict a proof submission gets, in the order the checks
    /// run: the game must have started, the submitter must participate, the
    /// video must be fresh, and at least one number must still need proof —
    /// unless everything requested is already proven, which is a no-op, not
    /// an error.
    pub open spec fn submit_decision(self, id: i64, m: GameMessage, ns: Seq<usize>) -> Result<
        (),
        Rejection,
    > {
        if !self.is_started {
            Err(Rejection::GameNotStarted)
        } else if !self.has_user(id) {
            Err(Rejection::NotAParticipant)
        } else if exists|j: int|
            0 <= j < self.slots@.len() && j != self.user_index(id) && msg_backed_by(
                #[trigger] self.slots@[j],
                m,
            ) {
            Err(Rejection::ProofOwnedByOther)
        } else if msg_backed_by(self.participant_of(id), m) {
            Err(Rejection::DuplicateProof)
        } else if covered_numbers(self.participant_of(id), ns).len() == ns.len() {
            Ok(())
        } else if self.accepted_numbers(uncovered_numbers(self.participant_of(id), ns)).len()
            == 0 {
            Err(Rejection::NoValidTricks)
        } else {
            Ok(())
        }
    }

    /// Submits one video as proof of the given trick numbers. Numbers already
    /// proven are reported and skipped; numbers that name no trick are
    /// dropped; the rest go into one new proof. With everything already
    /// proven the call reports and changes nothing.
    pub fn submit_proof(
        &mut self,
        user: &GameUser,
        message: &GameMessage,
        tricks: &Vec<usize>,
    ) -> (r: Result<ProofOutcome, Rejection>)
        requires
            old(self).wf(),
        ensures
            final(self).wf(),
            match r {
                Err(e) => old(self).submit_decision(user.id, *message, tricks@) == Err::<
                    (),
                    Rejection,
                >(e) && *final(self) == *old(self),
                Ok(out) => {
                    let part = old(self).participant_of(user.id);
                    let acc = old(self).accepted_numbers(uncovered_numbers(part, tricks@));
                    &&& old(self).submit_decision(user.id, *message, tricks@) == Ok::<
                        (),
                        Rejection,
                    >(())
                    &&& out.already_proven@ == covered_numbers(part, tricks@)
                    &&& out.proven@.len() == acc.len()
                    &&& forall|i: int|
                        0 <= i < acc.len() ==> (#[trigger] out.proven@[i]).0 == acc[i]
                            && out.proven@[i].1 == old(self).spec_trick_name(acc[i] as int)
                    &&& if acc.len() == 0 {
                        *final(self) == *old(self)
                    } else {
                        Game::proof_appended(*old(self), *final(self), user.id, *message, acc)
                    }
                },
            },
    {
        if !self.started() {
            return Err(Rejection::GameNotStarted);
        }
        let j = match self.slot_of(user.id) {
            Some(j) => j,
            None => {
                return Err(Rejection::NotAParticipant);
            },
        };
        match self.find_participant_and_proof_by_msg(message) {
            Some(found) => {
                if found.0.id != user.id {
                    proof {
                        let oj = self.user_index(found.0.id);
                        assert(oj != self.user_index(user.id)) by {
                            if oj == self.user_index(user.id) {
                                assert(self.users@[oj].id == found.0.id);
                            }
                        }
                        assert(msg_backed_by(self.slots@[oj], *message));
                    }
                    return Err(Rejection::ProofOwnedByOther);
                } else {
                    proof {
                        assert(msg_backed_by(self.participant_of(user.id), *message));
                        assert forall|j2: int|
                            0 <= j2 < self.slots@.len() && j2 != self.user_index(user.id)
                                implies !msg_backed_by(#[trigger] self.slots@[j2], *message) by {
                            if msg_backed_by(self.slots@[j2], *message) {
                                let ji = self.user_index(user.id);
                                let k1 = choose|k: int|
                                    0 <= k < self.slots@[j2].proofs@.len() && (
                                    #[trigger] self.slots@[j2].proofs@[k]).msg == *message;
                                let k2 = choose|k: int|
                                    0 <= k < self.slots@[ji].proofs@.len() && (
                                    #[trigger] self.slots@[ji].proofs@[k]).msg == *message;
                                assert(self.slots@[j2].proofs@[k1].msg
                                    == self.slots@[ji].proofs@[k2].msg);
                            }
                        }
                    }
                    return Err(Rejection::DuplicateProof);
                }
            },
            None => {},
        }
        let mut already: Vec<usize> = Vec::new();
        let mut not_proven: Vec<usize> = Vec::new();
        let mut i: usize = 0;
        while i < tricks.len()
            invariant
                self.wf(),
                self.has_user(user.id),
                i <= tricks@.len(),
                already@ == covered_numbers(self.participant_of(user.id), tricks@.subrange(0, i as int)),
                not_proven@ == uncovered_numbers(
                    self.participant_of(user.id),
                    tricks@.subrange(0, i as int),
                ),
            decreases tricks@.len() - i,
        {
            let n = tricks[i];
            proof {
                assert(tricks@.subrange(0, i + 1).drop_last() =~= tricks@.subrange(0, i as int));
                assert(tricks@.subrange(0, i + 1).last() == tricks@[i as int]);
            }
            if self.is_trick_proven(user, n) {
                already.push(n);
            } else {
                not_proven.push(n);
            }
            i += 1;
        }
        proof {
            assert(tricks@.subrange(0, tricks@.len() as int) =~= tricks@);
        }
        proof {
            lemma_covered_le(self.participant_of(user.id), tricks@);
        }
        if already.len() == tricks.len() {
            proof {
                assert(uncovered_numbers(self.participant_of(user.id), tricks@).len() == 0);
                assert(uncovered_numbers(self.participant_of(user.id), tricks@)
                    =~= Seq::<usize>::empty());
            }
            return Ok(ProofOutcome { already_proven: already, proven: Vec::new() });
        }
        let names = self.prove_tricks(user, message, not_proven);
        if names.len() == 0 {
            return Err(Rejection::NoValidTricks);
        }
        Ok(ProofOutcome { already_proven: already, proven: names })
    }
}

/// The covered part of a request is never longer than the request, and is the
/// whole request only when nothing was left uncovered.
proof fn lemma_covered_le(p: Participant, ns: Seq<usize>)
    ensures
        covered_numbers(p, ns).len() + uncovered_numbers(p, ns).len() == ns.len(),
    decreases ns.len(),
{
    if ns.len() > 0 {
        lemma_covered_le(p, ns.drop_last());
    }
}

/// Membership of a number in a vector of numbers.
fn contains_num(v: &Vec<usize>, n: usize) -> (r: bool)
    ensures
        r == v@.contains(n),
{
    let mut i: usize = 0;
    while i < v.len()
        invariant
            i <= v@.len(),
            forall|k: int| 0 <= k < i ==> v@[k] != n,
        decreases v@.len() - i,
    {
        if v[i] == n {
            return true;
        }
        i += 1;
    }
    false
}

/// A game change that keeps the users' ids and the challenge, and only ever
/// appends to proof lists, keeps the challenge's target in place.
proof fn challenge_target_stable_prefix(pre: Game, post: Game)
    requires
        pre.wf(),
        post.proof_challenge == pre.proof_challenge,
        post.users@.len() >= pre.users@.len(),
        post.slots@.len() == post.users@.len(),
        pre.users@.len() == pre.slots@.len(),
        post.ids_distinct(),
        forall|j: int| 0 <= j < pre.users@.len() ==> post.users@[j] == pre.users@[j],
        forall|j: int|
            0 <= j < pre.slots@.len() ==> pre.slots@[j].proofs@.is_prefix_of(
                (#[trigger] post.slots@[j]).proofs@,
            ),
    ensures
        post.challenge_wf(),
{
    match pre.proof_challenge {
        None => {},
        Some(ch) => {
            let j = pre.user_index(ch.user.id);
            assert(0 <= j < pre.users@.len() && pre.users@[j].id == ch.user.id);
            assert(post.users@[j].id == ch.user.id);
            assert(post.has_user(ch.user.id));
            let j2 = post.user_index(ch.user.id);
            assert(0 <= j2 < post.users@.len() && post.users@[j2].id == ch.user.id);
            if j2 != j {
                assert(post.users@[j2].id != post.users@[j].id);
            }
            let k = choose|k: int|
                0 <= k < pre.slots@[j].proofs@.len() && (#[trigger] pre.slots@[j].proofs@[k]).msg
                    == ch.proof.msg;
            assert(pre.slots@[j].proofs@.is_prefix_of(post.slots@[j].proofs@));
            assert(post.slots@[j].proofs@[k] == pre.slots@[j].proofs@[k]);
            assert(msg_backed_by(post.participant_of(ch.user.id), ch.proof.msg));
        },
    }
}

impl Default for Game {
    /// A fresh game: nobody joined, nothing started, nothing pinned.
    fn default() -> (g: Self)
        ensures
            g.wf(),
            g.users@.len() == 0,
            g.slots@.len() == 0,
            !g.is_started,
            g.game_message is None,
            g.proof_challenge is None,
    {
        Game {
            users: Vec::new(),
            slots: Vec::new(),
            lookup: id_index_new(),
            game_message: None,
            is_started: false,
            proof_challenge: None,
        }
    }
}

} // verus!
