use vstd::prelude::*;

verus! {

/// A reference to one chat message: enough to identify a video and to link
/// back to it. Two proofs stand for the same piece of evidence exactly when
/// their message references are equal.
#[derive(Clone, Copy, PartialEq, Eq, Structural, Debug)]
pub struct GameMessage {
    pub id: i64,
    pub chat_id: i64,
}

/// One registered trick. `edited` is a one-shot lock: once a trick has been
/// renamed it can never be renamed again.
#[derive(Debug)]
pub struct Trick {
    pub name: String,
    pub edited: bool,
}

impl Clone for Trick {
    fn clone(&self) -> (r: Self)
        ensures
            r == *self,
    {
        Trick { name: self.name.clone(), edited: self.edited }
    }
}

/// One piece of video evidence, covering the trick numbers listed in
/// `tricks_proven`.
#[derive(Debug)]
pub struct Proof {
    pub msg: GameMessage,
    pub tricks_proven: Vec<usize>,
}

/// Value equality of proofs, spelled out because a `Vec` field is compared by
/// its view.
pub open spec fn proof_eq(a: Proof, b: Proof) -> bool {
    a.msg == b.msg && a.tricks_proven@ == b.tricks_proven@
}

impl Proof {
    pub fn new(msg: &GameMessage, tricks_proven: Vec<usize>) -> (r: Self)
        ensures
            r.msg == *msg,
            r.tricks_proven@ == tricks_proven@,
    {
        Proof { msg: *msg, tricks_proven }
    }
}

impl Clone for Proof {
    fn clone(&self) -> (r: Self)
        ensures
            proof_eq(r, *self),
    {
        let mut nums: Vec<usize> = Vec::new();
        let mut i: usize = 0;
        while i < self.tricks_proven.len()
            invariant
                i <= self.tricks_proven.len(),
                nums@ == self.tricks_proven@.subrange(0, i as int),
            decreases self.tricks_proven.len() - i,
        {
            nums.push(self.tricks_proven[i]);
            assert(nums@ =~= self.tricks_proven@.subrange(0, i + 1));
            i += 1;
        }
        assert(nums@ =~= self.tricks_proven@);
        Proof { msg: self.msg, tricks_proven: nums }
    }
}

/// A chat user as the game remembers one. Identity is by `id` alone; the
/// display fields are informational.
#[derive(Debug)]
pub struct GameUser {
    pub id: i64,
    pub first_name: String,
    pub username: Option<String>,
}

impl Clone for GameUser {
    fn clone(&self) -> (r: Self)
        ensures
            r == *self,
    {
        GameUser {
            id: self.id,
            first_name: self.first_name.clone(),
            username: match &self.username {
                Some(u) => Some(u.clone()),
                None => None,
            },
        }
    }
}

/// A user's in-game record: the tricks they registered and the proofs they
/// submitted.
#[derive(Debug)]
pub struct Participant {
    pub tricks: Vec<Trick>,
    pub proofs: Vec<Proof>,
}

/// Value equality of participants, spelled out field by field.
pub open spec fn participant_eq(a: Participant, b: Participant) -> bool {
    &&& a.tricks@ == b.tricks@
    &&& a.proofs@.len() == b.proofs@.len()
    &&& forall|i: int| 0 <= i < a.proofs@.len() ==> proof_eq(#[trigger] a.proofs@[i], b.proofs@[i])
}

/// The number of trick numbers covered by the proofs in `ps`, counted with
/// multiplicity across proofs.
pub open spec fn proven_count(ps: Seq<Proof>) -> int
    decreases ps.len(),
{
    if ps.len() == 0 {
        0
    } else {
        proven_count(ps.drop_last()) + ps.last().tricks_proven@.len()
    }
}

impl Participant {
    /// How many trick numbers this participant's proofs cover, counted with
    /// multiplicity across proofs.
    pub fn num_tricks_proven(&self) -> (r: usize)
        requires
            proven_count(self.proofs@) <= usize::MAX,
        ensures
            r == proven_count(self.proofs@),
    {
        let mut total: usize = 0;
        let mut i: usize = 0;
        while i < self.proofs.len()
            invariant
                i <= self.proofs.len(),
                proven_count(self.proofs@) <= usize::MAX,
                total == proven_count(self.proofs@.subrange(0, i as int)),
            decreases self.proofs.len() - i,
        {
            proof {
                lemma_proven_count_prefix_le(self.proofs@, i + 1);
                assert(self.proofs@.subrange(0, i + 1).drop_last() =~= self.proofs@.subrange(
                    0,
                    i as int,
                ));
                assert(self.proofs@.subrange(0, i + 1).last() == self.proofs@[i as int]);
            }
            total = total + self.proofs[i].tricks_proven.len();
            i += 1;
        }
        proof {
            assert(self.proofs@.subrange(0, self.proofs@.len() as int) =~= self.proofs@);
        }
        total
    }
}

/// A prefix of the proofs never covers more than the whole sequence does.
pub proof fn lemma_proven_count_prefix_le(ps: Seq<Proof>, i: int)
    requires
        0 <= i <= ps.len(),
    ensures
        proven_count(ps.subrange(0, i)) <= proven_count(ps),
    decreases ps.len() - i,
{
    if i == ps.len() {
        assert(ps.subrange(0, i) =~= ps);
    } else {
        lemma_proven_count_prefix_le(ps, i + 1);
        let shorter = ps.subrange(0, i);
        let longer = ps.subrange(0, i + 1);
        assert(longer.drop_last() =~= shorter);
        assert(longer.last().tricks_proven@.len() >= 0);
    }
}

impl Clone for Participant {
    fn clone(&self) -> (r: Self)
        ensures
            participant_eq(r, *self),
    {
        let mut tricks: Vec<Trick> = Vec::new();
        let mut i: usize = 0;
        while i < self.tricks.len()
            invariant
                i <= self.tricks.len(),
                tricks@ == self.tricks@.subrange(0, i as int),
            decreases self.tricks.len() - i,
        {
            tricks.push(self.tricks[i].clone());
            assert(tricks@ =~= self.tricks@.subrange(0, i + 1));
            i += 1;
        }
        assert(tricks@ =~= self.tricks@);
        let mut proofs: Vec<Proof> = Vec::new();
        let mut j: usize = 0;
        while j < self.proofs.len()
            invariant
                j <= self.proofs.len(),
                proofs@.len() == j,
                forall|k: int| 0 <= k < j ==> proof_eq(#[trigger] proofs@[k], self.proofs@[k]),
            decreases self.proofs.len() - j,
        {
            proofs.push(self.proofs[j].clone());
            j += 1;
        }
        Participant { tricks, proofs }
    }
}

/// Why an operation was refused. An operation that returns a `Rejection`
/// leaves the game exactly as it found it.
#[derive(Clone, Copy, PartialEq, Eq, Structural, Debug)]
pub enum Rejection {
    /// No trick has been registered yet, so the game has not started.
    GameNotStarted,
    /// The acting user has not registered any trick.
    NotAParticipant,
    /// The participant already holds the maximum number of tricks.
    TrickCapReached,
    /// No trick carries the given number.
    NoSuchTrick,
    /// Only the owner of a trick may rename it.
    NotYourTrick,
    /// The trick was renamed once already.
    AlreadyEdited,
    /// The same video already backs a proof of the same participant.
    DuplicateProof,
    /// The same video already backs a proof of a different participant.
    ProofOwnedByOther,
    /// None of the requested numbers names a trick still in need of proof.
    NoValidTricks,
    /// A challenge is already being voted on.
    ChallengeAlreadyActive,
    /// The referenced message backs no proof in this game.
    NotAProof,
    /// There is no challenge to vote on.
    NoActiveChallenge,
    /// The voter has already cast a vote in this challenge.
    AlreadyVoted,
}

} // verus!
