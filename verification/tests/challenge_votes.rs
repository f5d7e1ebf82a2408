use skate_game::challenge::{Vote, VoteOutcome};
use skate_game::game::Game;
use skate_game::types::{GameMessage, GameUser, Rejection};

fn user(id: i64, name: &str) -> GameUser {
    GameUser { id, first_name: name.to_owned(), username: None }
}

/// A game of `n` participants, each with one trick, where the first one
/// proved their trick with the returned video message.
fn game_with_proof(n: i64) -> (Game, GameMessage) {
    let mut g = Game::default();
    for id in 1..=n {
        g.add_trick(&user(id, "skater"), format!("trick-{}", id)).unwrap();
    }
    let video = GameMessage { id: 100, chat_id: 7 };
    g.submit_proof(&user(1, "skater"), &video, &vec![1]).unwrap();
    (g, video)
}

#[test]
fn tie_rejects_nothing_and_no_majority_removes_the_proof() {
    // two participants, one trick each, a proof by the first, challenged
    let (mut g, video) = game_with_proof(2);
    let poll = GameMessage { id: 200, chat_id: 7 };
    g.open_challenge(&video, poll).unwrap();
    // quorum of two participants is two voters (2 > 2/2); the first "no"
    // only tallies
    match g.cast_vote(&user(2, "skater"), Vote::No).unwrap() {
        VoteOutcome::Tally { yes, no, voters } => {
            assert_eq!((yes, no), (0, 1));
            assert_eq!(voters.len(), 1);
        },
        _ => panic!("one voter of two participants must not resolve"),
    }
    // the second "no" reaches quorum and rejects: 0 yes < 2 no
    match g.cast_vote(&user(1, "skater"), Vote::No).unwrap() {
        VoteOutcome::Resolved { accepted, yes, no, voters } => {
            assert!(!accepted);
            assert_eq!((yes, no), (0, 2));
            assert_eq!(voters.len(), 2);
        },
        _ => panic!("two voters of two participants must resolve"),
    }
    // the disputed proof is gone, by its message reference
    assert!(!g.proof_exists(&user(1, "skater"), &video));
    assert_eq!(g.participant_by_index(0).unwrap().proofs.len(), 0);
    assert_eq!(g.participant_by_index(0).unwrap().num_tricks_proven(), 0);
    // the challenge is cleared
    assert!(matches!(g.cast_vote(&user(2, "skater"), Vote::No), Err(Rejection::NoActiveChallenge)));
}

#[test]
fn accepted_challenge_mutates_nothing() {
    let (mut g, video) = game_with_proof(2);
    let poll = GameMessage { id: 200, chat_id: 7 };
    g.open_challenge(&video, poll).unwrap();
    g.cast_vote(&user(1, "skater"), Vote::Yes).unwrap();
    // one yes, one no: the tie accepts the proof
    match g.cast_vote(&user(2, "skater"), Vote::No).unwrap() {
        VoteOutcome::Resolved { accepted, yes, no, .. } => {
            assert!(accepted);
            assert_eq!((yes, no), (1, 1));
        },
        _ => panic!("quorum was reached"),
    }
    // participant, trick and proof data are exactly as before
    assert!(g.proof_exists(&user(1, "skater"), &video));
    let p = g.participant_by_index(0).unwrap();
    assert_eq!(p.proofs.len(), 1);
    assert_eq!(p.tricks.len(), 1);
    assert_eq!(g.trick_by_number(1).unwrap().name, "trick-1");
    // and a new challenge may open again
    assert!(g.open_challenge(&video, GameMessage { id: 201, chat_id: 7 }).is_ok());
}

#[test]
fn quorum_is_reached_exactly_past_half() {
    // five participants: 5/2 = 2, so the third distinct voter resolves —
    // never earlier, and long before all five voted
    let (mut g, video) = game_with_proof(5);
    g.open_challenge(&video, GameMessage { id: 200, chat_id: 7 }).unwrap();
    for id in 1..=2 {
        match g.cast_vote(&user(id, "skater"), Vote::Yes).unwrap() {
            VoteOutcome::Tally { .. } => {},
            _ => panic!("{} voters of five participants must not resolve", id),
        }
    }
    match g.cast_vote(&user(3, "skater"), Vote::Yes).unwrap() {
        VoteOutcome::Resolved { accepted, yes, no, voters } => {
            assert!(accepted);
            assert_eq!((yes, no), (3, 0));
            assert_eq!(voters.len(), 3);
        },
        _ => panic!("three voters of five participants must resolve"),
    }
}

#[test]
fn double_voting_is_rejected_and_changes_no_tally() {
    let (mut g, video) = game_with_proof(3);
    g.open_challenge(&video, GameMessage { id: 200, chat_id: 7 }).unwrap();
    match g.cast_vote(&user(1, "skater"), Vote::Yes).unwrap() {
        VoteOutcome::Tally { yes, no, .. } => assert_eq!((yes, no), (1, 0)),
        _ => panic!("one voter of three participants must not resolve"),
    }
    // the same user voting again is rejected, whatever the ballot
    assert!(matches!(g.cast_vote(&user(1, "skater"), Vote::Yes), Err(Rejection::AlreadyVoted)));
    assert!(matches!(g.cast_vote(&user(1, "skater"), Vote::No), Err(Rejection::AlreadyVoted)));
    // the tallies are unchanged: the next distinct voter sees 1 yes, 1 no
    match g.cast_vote(&user(2, "skater"), Vote::No).unwrap() {
        VoteOutcome::Resolved { accepted, yes, no, .. } => {
            assert!(accepted);
            assert_eq!((yes, no), (1, 1));
        },
        _ => panic!("two voters of three participants must resolve"),
    }
}

#[test]
fn votes_need_an_open_challenge_and_a_participant() {
    let (mut g, video) = game_with_proof(2);
    assert!(matches!(g.cast_vote(&user(1, "skater"), Vote::Yes), Err(Rejection::NoActiveChallenge)));
    g.open_challenge(&video, GameMessage { id: 200, chat_id: 7 }).unwrap();
    assert!(matches!(g.cast_vote(&user(9, "lurker"), Vote::Yes), Err(Rejection::NotAParticipant)));
}

#[test]
fn challenges_need_a_proof_and_come_one_at_a_time() {
    let (mut g, video) = game_with_proof(2);
    let unknown = GameMessage { id: 999, chat_id: 7 };
    assert_eq!(
        g.open_challenge(&unknown, GameMessage { id: 200, chat_id: 7 }),
        Err(Rejection::NotAProof)
    );
    assert!(g.open_challenge(&video, GameMessage { id: 200, chat_id: 7 }).is_ok());
    assert_eq!(
        g.open_challenge(&video, GameMessage { id: 201, chat_id: 7 }),
        Err(Rejection::ChallengeAlreadyActive)
    );
}
