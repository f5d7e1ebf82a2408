use vstd::prelude::*;

use crate::game::{Game, msg_backed_by};
use crate::types::{GameMessage, GameUser, Participant, Proof, Rejection, participant_eq};

verus! {

/// One open dispute against one proof. At most one challenge is alive per
/// game; it is resolved by a majority vote of the participants.
pub struct ProofChallenge {
    /// The user whose proof is disputed.
    pub user: GameUser,
    /// A snapshot of that user's record at the time the challenge opened.
    pub participant: Participant,
    /// A copy of the disputed proof; its identity is its message reference.
    pub proof: Proof,
    /// The chat message that carries the yes/no poll.
    pub poll_msg: GameMessage,
    /// How many voters accepted the proof.
    pub num_yes: usize,
    /// How many voters rejected the proof.
    pub num_no: usize,
    /// Everyone who voted so far; ids are pairwise distinct.
    pub voters: Vec<GameUser>,
}

impl ProofChallenge {
    pub open spec fn spec_has_voter(self, id: i64) -> bool {
        exists|i: int| 0 <= i < self.voters@.len() && self.voters@[i].id == id
    }

    pub open spec fn voters_distinct(self) -> bool {
        forall|i: int, j: int|
            0 <= i < j < self.voters@.len() ==> self.voters@[i].id != self.voters@[j].id
    }

    /// Tallies agree with the voter list; this keeps both counters in step.
    pub open spec fn tallies_consistent(self) -> bool {
        self.num_yes + self.num_no == self.voters@.len()
    }

    /// Whether `id` has already voted in this challenge.
    pub fn contains_voter(&self, id: i64) -> (r: bool)
        ensures
            r == self.spec_has_voter(id),
    {
        let mut i: usize = 0;
        while i < self.voters.len()
            invariant
                i <= self.voters.len(),
                forall|k: int| 0 <= k < i ==> self.voters@[k].id != id,
            decreases self.voters.len() - i,
        {
            if self.voters[i].id == id {
                return true;
            }
            i += 1;
        }
        false
    }
}

/// A ballot in a proof challenge.
#[derive(Clone, Copy, PartialEq, Eq, Structural, Debug)]
pub enum Vote {
    Yes,
    No,
}

/// What one accepted vote led to: either a running tally while the challenge
/// stays open, or the resolution that closed it.
#[derive(Debug)]
pub enum VoteOutcome {
    Tally { yes: usize, no: usize, voters: Vec<GameUser> },
    Resolved { accepted: bool, yes: usize, no: usize, voters: Vec<GameUser> },
}

/// A challenge resolves once the distinct voters outnumber half the
/// participants: a strict majority under integer division.
pub open spec fn quorum_reached(voters: int, participants: int) -> bool {
    voters > participants / 2
}

/// The tie rule, applied uniformly: a tied tally accepts the proof, so
/// rejection needs strictly more no than yes votes.
pub open spec fn challenge_accepted(yes: int, no: int) -> bool {
    yes >= no
}

/// The position of the proof carrying message `m` (meaningful where one
/// exists; unique wherever message references are unique).
pub open spec fn proof_msg_index(ps: Seq<Proof>, m: GameMessage) -> int {
    choose|k: int| 0 <= k < ps.len() && ps[k].msg == m
}

impl Game {
    /// The exact verdict a challenge request gets: one challenge at a time,
    /// and only an existing proof can be disputed.
    pub open spec fn challenge_decision(self, target: GameMessage) -> Result<(), Rejection> {
        if self.proof_challenge is Some {
            Err(Rejection::ChallengeAlreadyActive)
        } else if !exists|j: int|
            0 <= j < self.slots@.len() && msg_backed_by(#[trigger] self.slots@[j], target) {
            Err(Rejection::NotAProof)
        } else {
            Ok(())
        }
    }

    /// Opens a challenge against the proof backed by `target`. `poll_msg` is
    /// the already-sent chat message carrying the yes/no poll.
    pub fn open_challenge(&mut self, target: &GameMessage, poll_msg: GameMessage) -> (r: Result<
        (),
        Rejection,
    >)
        requires
            old(self).wf(),
        ensures
            final(self).wf(),
            r == old(self).challenge_decision(*target),
            r is Err ==> *final(self) == *old(self),
            r is Ok ==> {
                let pre = *old(self);
                let post = *final(self);
                &&& post.users == pre.users
                &&& post.slots == pre.slots
                &&& post.game_message == pre.game_message
                &&& post.is_started == pre.is_started
                &&& post.proof_challenge matches Some(ch) && {
                    &&& pre.has_user(ch.user.id)
                    &&& ch.user == pre.users@[pre.user_index(ch.user.id)]
                    &&& msg_backed_by(pre.participant_of(ch.user.id), *target)
                    &&& participant_eq(ch.participant, pre.participant_of(ch.user.id))
                    &&& ch.proof.msg == *target
                    &&& exists|k: int|
                        0 <= k < pre.participant_of(ch.user.id).proofs@.len()
                            && crate::types::proof_eq(
                            ch.proof,
                            #[trigger] pre.participant_of(ch.user.id).proofs@[k],
                        )
                    &&& ch.poll_msg == poll_msg
                    &&& ch.num_yes == 0
                    &&& ch.num_no == 0
                    &&& ch.voters@ == Seq::<GameUser>::empty()
                }
            },
    {
        if self.proof_challenge.is_some() {
            return Err(Rejection::ChallengeAlreadyActive);
        }
        match self.find_participant_and_proof_by_msg(target) {
            Some(found) => {
                let (user, participant, found_proof) = found;
                proof {
                    let j = self.user_index(user.id);
                    assert(msg_backed_by(self.slots@[j], *target));
                }
                self.proof_challenge = Some(
                    ProofChallenge {
                        user,
                        participant,
                        proof: found_proof,
                        poll_msg,
                        num_yes: 0,
                        num_no: 0,
                        voters: Vec::new(),
                    },
                );
                Ok(())
            },
            None => Err(Rejection::NotAProof),
        }
    }

    /// The exact verdict a vote gets: there must be an open challenge, the
    /// voter must participate in the game and must not have voted yet.
    pub open spec fn vote_decision(self, voter_id: i64) -> Result<(), Rejection> {
        match self.proof_challenge {
            None => Err(Rejection::NoActiveChallenge),
            Some(ch) => {
                if !self.has_user(voter_id) {
                    Err(Rejection::NotAParticipant)
                } else if ch.spec_has_voter(voter_id) {
                    Err(Rejection::AlreadyVoted)
                } else {
                    Ok(())
                }
            },
        }
    }

    /// How `post` relates to `pre` after a ballot was recorded without
    /// reaching quorum: the ballot is on file, nothing else moves.
    pub open spec fn vote_recorded(pre: Game, post: Game, voter: GameUser, choice: Vote) -> bool {
        &&& pre.proof_challenge matches Some(ch) && {
            &&& post.proof_challenge matches Some(ch2) && {
                &&& ch2.user == ch.user
                &&& ch2.participant == ch.participant
                &&& ch2.proof == ch.proof
                &&& ch2.poll_msg == ch.poll_msg
                &&& ch2.num_yes == ch.num_yes + (if choice is Yes { 1int } else { 0int })
                &&& ch2.num_no == ch.num_no + (if choice is No { 1int } else { 0int })
                &&& ch2.voters@ == ch.voters@.push(voter)
            }
        }
        &&& post.users == pre.users
        &&& post.slots == pre.slots
        &&& post.game_message == pre.game_message
        &&& post.is_started == pre.is_started
    }

    /// An accepted challenge clears itself and touches nothing else: no
    /// participant, proof or trick data moves.
    pub open spec fn challenge_resolved_accepted(pre: Game, post: Game) -> bool {
        &&& post.proof_challenge is None
        &&& post.users == pre.users
        &&& post.slots == pre.slots
        &&& post.game_message == pre.game_message
        &&& post.is_started == pre.is_started
    }

    /// A rejected challenge removes exactly the disputed proof from the
    /// target participant — their proof count drops by one and no proof with
    /// that message reference remains — and touches nothing else.
    pub open spec fn challenge_resolved_rejected(pre: Game, post: Game) -> bool {
        &&& pre.proof_challenge matches Some(ch) && {
            let tj = pre.user_index(ch.user.id);
            let ps = pre.slots@[tj].proofs@;
            let k = proof_msg_index(ps, ch.proof.msg);
            &&& post.proof_challenge is None
            &&& post.users == pre.users
            &&& post.slots@.len() == pre.slots@.len()
            &&& post.slots@[tj].tricks == pre.slots@[tj].tricks
            &&& post.slots@[tj].proofs@ == ps.remove(k)
            &&& post.slots@[tj].proofs@.len() == ps.len() - 1
            &&& !msg_backed_by(post.slots@[tj], ch.proof.msg)
            &&& forall|x: int|
                0 <= x < pre.slots@.len() && x != tj ==> post.slots@[x] == pre.slots@[x]
            &&& post.game_message == pre.game_message
            &&& post.is_started == pre.is_started
        }
    }

    /// Casts one ballot. The vote is rejected without any effect when no
    /// challenge is open, the voter is no participant, or the voter voted
    /// already. Otherwise the ballot is recorded; once the distinct voters
    /// outnumber half the participants the challenge resolves — a tie or a
    /// yes-majority accepts the proof, a no-majority rejects it and removes
    /// the disputed proof from its owner.
    pub fn cast_vote(&mut self, voter: &GameUser, choice: Vote) -> (r: Result<
        VoteOutcome,
        Rejection,
    >)
        requires
            old(self).wf(),
        ensures
            final(self).wf(),
            match r {
                Err(e) => old(self).vote_decision(voter.id) == Err::<(), Rejection>(e)
                    && *final(self) == *old(self),
                Ok(out) => {
                    &&& old(self).vote_decision(voter.id) is Ok
                    &&& old(self).proof_challenge matches Some(ch) && {
                        let yes2 = ch.num_yes + (if choice is Yes { 1int } else { 0int });
                        let no2 = ch.num_no + (if choice is No { 1int } else { 0int });
                        let voters2 = ch.voters@.push(*voter);
                        if quorum_reached(voters2.len() as int, old(self).users@.len() as int) {
                            &&& out matches VoteOutcome::Resolved { accepted, yes, no, voters }
                                && accepted == challenge_accepted(yes2, no2) && yes == yes2 && no
                                == no2 && voters@ == voters2
                            &&& if challenge_accepted(yes2, no2) {
                                Game::challenge_resolved_accepted(*old(self), *final(self))
                            } else {
                                Game::challenge_resolved_rejected(*old(self), *final(self))
                            }
                        } else {
                            &&& out matches VoteOutcome::Tally { yes, no, voters } && yes == yes2
                                && no == no2 && voters@ == voters2
                            &&& Game::vote_recorded(*old(self), *final(self), *voter, choice)
                        }
                    }
                },
            },
    {
        let ch_opt = self.proof_challenge.take();
        let mut ch = match ch_opt {
            Some(c) => c,
            None => {
                proof {
                    assert(*self == *old(self));
                }
                return Err(Rejection::NoActiveChallenge);
            },
        };
        if self.slot_of(voter.id).is_none() {
            self.proof_challenge = Some(ch);
            proof {
                assert(*self == *old(self));
            }
            return Err(Rejection::NotAParticipant);
        }
        if ch.contains_voter(voter.id) {
            self.proof_challenge = Some(ch);
            proof {
                assert(*self == *old(self));
            }
            return Err(Rejection::AlreadyVoted);
        }
        ch.voters.push(voter.clone());
        proof {
            assert(ch.voters.len() == ch.voters@.len());
        }
        match choice {
            Vote::Yes => {
                ch.num_yes = ch.num_yes + 1;
            },
            Vote::No => {
                ch.num_no = ch.num_no + 1;
            },
        }
        if ch.voters.len() > self.users.len() / 2 {
            let accepted = ch.num_yes >= ch.num_no;
            if !accepted {
                let tj = self.slot_of(ch.user.id).unwrap();
                let k = index_of_msg(&self.slots[tj].proofs, &ch.proof.msg).unwrap();
                self.slots[tj].proofs.remove(k);
                proof {
                    lemma_remove_proof(*old(self), *self, tj as int, k as int, ch.proof.msg);
                }
            }
            let voters = clone_users(&ch.voters);
            Ok(VoteOutcome::Resolved { accepted, yes: ch.num_yes, no: ch.num_no, voters })
        } else {
            let voters = clone_users(&ch.voters);
            let yes = ch.num_yes;
            let no = ch.num_no;
            self.proof_challenge = Some(ch);
            Ok(VoteOutcome::Tally { yes, no, voters })
        }
    }
}

/// Removing one proof keeps message uniqueness, keeps every other slot, and
/// leaves no proof with the removed message behind.
proof fn lemma_remove_proof(pre: Game, post: Game, tj: int, k: int, m: GameMessage)
    requires
        pre.wf(),
        0 <= tj < pre.slots@.len(),
        0 <= k < pre.slots@[tj].proofs@.len(),
        pre.slots@[tj].proofs@[k].msg == m,
        post.users == pre.users,
        post.lookup == pre.lookup,
        post.slots@.len() == pre.slots@.len(),
        post.slots@[tj].tricks == pre.slots@[tj].tricks,
        post.slots@[tj].proofs@ == pre.slots@[tj].proofs@.remove(k),
        forall|x: int| 0 <= x < pre.slots@.len() && x != tj ==> post.slots@[x] == pre.slots@[x],
    ensures
        post.ids_distinct(),
        post.lookup_matches(),
        post.tricks_capped(),
        post.proof_msgs_unique(),
        !msg_backed_by(post.slots@[tj], m),
        k == proof_msg_index(pre.slots@[tj].proofs@, m),
    {
    let ps = pre.slots@[tj].proofs@;
    // every proof position after the removal maps back to a distinct one before it
    assert forall|x: int| 0 <= x < post.slots@.len() implies (#[trigger] post.slots@[x]).tricks@.len()
        <= crate::MAX_TRICKS by {
        if x == tj {
            assert(post.slots@[x].tricks == pre.slots@[x].tricks);
        }
    }
    assert forall|k2: int|
        0 <= k2 < post.slots@[tj].proofs@.len() implies (#[trigger] post.slots@[tj].proofs@[k2]).msg
        != m by {
        let orig = if k2 < k {
            k2
        } else {
            k2 + 1
        };
        assert(post.slots@[tj].proofs@[k2] == ps[orig]);
        assert(ps[orig].msg != ps[k].msg);
    }
    assert forall|j1: int, k1: int, j2: int, k2: int|
        (0 <= j1 < post.slots@.len() && 0 <= k1 < post.slots@[j1].proofs@.len() && 0 <= j2
            < post.slots@.len() && 0 <= k2 < post.slots@[j2].proofs@.len() && (j1 != j2 || k1
            != k2)) implies #[trigger] post.slots@[j1].proofs@[k1].msg
        != #[trigger] post.slots@[j2].proofs@[k2].msg by {
        let o1 = if j1 == tj && k1 >= k {
            k1 + 1
        } else {
            k1
        };
        let o2 = if j2 == tj && k2 >= k {
            k2 + 1
        } else {
            k2
        };
        assert(post.slots@[j1].proofs@[k1] == pre.slots@[j1].proofs@[o1]);
        assert(post.slots@[j2].proofs@[k2] == pre.slots@[j2].proofs@[o2]);
        assert(pre.slots@[j1].proofs@[o1].msg != pre.slots@[j2].proofs@[o2].msg);
    }
    let kc = proof_msg_index(ps, m);
    assert(0 <= kc < ps.len() && ps[kc].msg == m);
    if kc != k {
        assert(ps[kc].msg != ps[k].msg);
    }
}

/// A copy of a voter list, value for value.
fn clone_users(v: &Vec<GameUser>) -> (r: Vec<GameUser>)
    ensures
        r@ == v@,
{
    let mut r: Vec<GameUser> = Vec::new();
    let mut i: usize = 0;
    while i < v.len()
        invariant
            i <= v@.len(),
            r@ == v@.subrange(0, i as int),
        decreases v@.len() - i,
    {
        r.push(v[i].clone());
        assert(r@ =~= v@.subrange(0, i + 1));
        i += 1;
    }
    assert(r@ =~= v@);
    r
}

/// The position of the first proof carrying this message, if any.
fn index_of_msg(ps: &Vec<Proof>, m: &GameMessage) -> (r: Option<usize>)
    ensures
        match r {
            Some(k) => k < ps@.len() && ps@[k as int].msg == *m,
            None => forall|k: int| 0 <= k < ps@.len() ==> (#[trigger] ps@[k]).msg != *m,
        },
{
    let mut k: usize = 0;
    while k < ps.len()
        invariant
            k <= ps@.len(),
            forall|k0: int| 0 <= k0 < k ==> (#[trigger] ps@[k0]).msg != *m,
        decreases ps@.len() - k,
    {
        if ps[k].msg.id == m.id && ps[k].msg.chat_id == m.chat_id {
            return Some(k);
        }
        k += 1;
    }
    None
}

/// Quorum triggers exactly past half the participant count: never at half or
/// below, always one above, and — once three or more play — before everyone
/// has voted.
pub proof fn lemma_quorum_threshold(p: int, v: int)
    requires
        p >= 0,
        v >= 0,
    ensures
        quorum_reached(v, p) <==> v >= p / 2 + 1,
        !quorum_reached(p / 2, p),
        quorum_reached(p / 2 + 1, p),
        p >= 3 ==> p / 2 + 1 < p,
{
    vstd::arithmetic::div_mod::lemma_fundamental_div_mod(p, 2);
    vstd::arithmetic::div_mod::lemma_mod_bound(p, 2);
}

/// Voting twice is always rejected: for a voter already on the list the
/// decision is the vote conflict, and the rejection leaves the game
/// untouched (see `cast_vote`).
pub proof fn lemma_double_vote_rejected(g: Game, voter_id: i64)
    requires
        g.proof_challenge matches Some(ch) && ch.spec_has_voter(voter_id),
        g.has_user(voter_id),
    ensures
        g.vote_decision(voter_id) == Err::<(), Rejection>(Rejection::AlreadyVoted),
{
}

} // verus!
