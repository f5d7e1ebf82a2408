use skate_game::MAX_TRICKS;
use skate_game::game::Game;
use skate_game::types::{GameMessage, GameUser, Rejection};

fn user(id: i64, name: &str) -> GameUser {
    GameUser { id, first_name: name.to_owned(), username: None }
}

#[test]
fn first_trick_starts_the_game() {
    let mut g = Game::default();
    assert!(!g.started());
    let alice = user(1, "Alice");
    assert!(g.add_trick(&alice, "kickflip".to_owned()).is_ok());
    assert!(g.started());
    let tricks = g.participant_tricks(&alice).expect("alice participates");
    assert_eq!(tricks.len(), 1);
    assert_eq!(tricks[0].name, "kickflip");
    assert!(!tricks[0].edited);
}

#[test]
fn fourth_trick_is_rejected_and_never_numbered() {
    let mut g = Game::default();
    let alice = user(1, "Alice");
    assert!(g.add_trick(&alice, "one".to_owned()).is_ok());
    assert!(g.add_trick(&alice, "two".to_owned()).is_ok());
    assert!(g.add_trick(&alice, "three".to_owned()).is_ok());
    assert_eq!(g.add_trick(&alice, "four".to_owned()), Err(Rejection::TrickCapReached));
    assert_eq!(g.participant_tricks(&alice).unwrap().len(), MAX_TRICKS);
    assert_eq!(g.trick_by_number(1).unwrap().name, "one");
    assert_eq!(g.trick_by_number(2).unwrap().name, "two");
    assert_eq!(g.trick_by_number(3).unwrap().name, "three");
    assert!(g.trick_by_number(4).is_none());
}

#[test]
fn batch_add_applies_until_the_cap() {
    let mut g = Game::default();
    let alice = user(1, "Alice");
    let names: Vec<String> =
        vec!["one".to_owned(), "two".to_owned(), "three".to_owned(), "four".to_owned()];
    let added = g.add_tricks(&alice, &names);
    assert_eq!(added, 3);
    let tricks = g.participant_tricks(&alice).unwrap();
    assert_eq!(tricks.len(), 3);
    assert_eq!(tricks[2].name, "three");
    // what was applied before the cap stays applied
    assert_eq!(g.add_tricks(&alice, &vec!["five".to_owned()]), 0);
    assert_eq!(g.participant_tricks(&alice).unwrap().len(), 3);
}

#[test]
fn numbering_is_by_insertion_order_and_slot() {
    let mut g = Game::default();
    let alice = user(1, "Alice");
    let bob = user(2, "Bob");
    g.add_trick(&alice, "a1".to_owned()).unwrap();
    g.add_trick(&alice, "a2".to_owned()).unwrap();
    g.add_trick(&alice, "a3".to_owned()).unwrap();
    g.add_trick(&bob, "b1".to_owned()).unwrap();
    // numbers 1..=3 belong to the first participant, 4 to the second
    assert_eq!(g.trick_by_number(1).unwrap().name, "a1");
    assert_eq!(g.trick_by_number(2).unwrap().name, "a2");
    assert_eq!(g.trick_by_number(3).unwrap().name, "a3");
    assert_eq!(g.trick_by_number(4).unwrap().name, "b1");
    assert!(g.trick_by_number(0).is_none());
    assert!(g.trick_by_number(5).is_none());
    assert_eq!(g.user_by_index(0).unwrap().id, 1);
    assert_eq!(g.user_by_index(1).unwrap().id, 2);
    assert!(g.user_by_index(2).is_none());
}

#[test]
fn numbering_skips_unfilled_slots() {
    let mut g = Game::default();
    let alice = user(1, "Alice");
    let bob = user(2, "Bob");
    g.add_trick(&alice, "a1".to_owned()).unwrap();
    g.add_trick(&bob, "b1".to_owned()).unwrap();
    // the second participant's first trick keeps number 4 even while the
    // first participant's hand has empty slots
    assert_eq!(g.trick_by_number(1).unwrap().name, "a1");
    assert!(g.trick_by_number(2).is_none());
    assert!(g.trick_by_number(3).is_none());
    assert_eq!(g.trick_by_number(4).unwrap().name, "b1");
}

#[test]
fn rename_is_single_use_and_owner_only() {
    let mut g = Game::default();
    let alice = user(1, "Alice");
    let bob = user(2, "Bob");
    g.add_trick(&alice, "a1".to_owned()).unwrap();
    g.add_trick(&alice, "a2".to_owned()).unwrap();
    g.add_trick(&bob, "b1".to_owned()).unwrap();
    // only the owner may rename
    assert_eq!(g.update_trick_name(&bob, 1, "stolen".to_owned()), Err(Rejection::NotYourTrick));
    // first rename succeeds and marks the trick edited
    assert!(g.update_trick_name(&alice, 1, "heelflip".to_owned()).is_ok());
    let t = g.trick_by_number(1).unwrap();
    assert_eq!(t.name, "heelflip");
    assert!(t.edited);
    // a second rename of the same number always fails, whoever asks
    assert_eq!(
        g.update_trick_name(&alice, 1, "again".to_owned()),
        Err(Rejection::AlreadyEdited)
    );
    assert_eq!(g.update_trick_name(&bob, 1, "again".to_owned()), Err(Rejection::NotYourTrick));
    // numbering is stable under renames
    assert_eq!(g.trick_by_number(2).unwrap().name, "a2");
    assert_eq!(g.trick_by_number(4).unwrap().name, "b1");
    // renames of numbers that name nothing are rejected
    assert_eq!(g.update_trick_name(&alice, 0, "x".to_owned()), Err(Rejection::NoSuchTrick));
    assert_eq!(g.update_trick_name(&alice, 3, "x".to_owned()), Err(Rejection::NoSuchTrick));
    assert_eq!(g.update_trick_name(&bob, 9, "x".to_owned()), Err(Rejection::NoSuchTrick));
}

#[test]
fn proof_submission_reports_and_skips_already_proven() {
    let mut g = Game::default();
    let alice = user(1, "Alice");
    g.add_trick(&alice, "a1".to_owned()).unwrap();
    g.add_trick(&alice, "a2".to_owned()).unwrap();
    let first = GameMessage { id: 100, chat_id: 7 };
    let out = g.submit_proof(&alice, &first, &vec![1]).unwrap();
    assert!(out.already_proven.is_empty());
    assert_eq!(out.proven, vec![(1, "a1".to_owned())]);
    // trick 1 already has a proof: of [1, 1, 2] only 2 is newly proven
    let second = GameMessage { id: 101, chat_id: 7 };
    let out = g.submit_proof(&alice, &second, &vec![1, 1, 2]).unwrap();
    assert_eq!(out.already_proven, vec![1, 1]);
    assert_eq!(out.proven, vec![(2, "a2".to_owned())]);
    let p = g.participant_by_index(0).unwrap();
    assert_eq!(p.proofs.len(), 2);
    assert_eq!(p.proofs[1].tricks_proven, vec![2]);
    assert_eq!(p.num_tricks_proven(), 2);
}

#[test]
fn proof_submission_rejections() {
    let mut g = Game::default();
    let alice = user(1, "Alice");
    let bob = user(2, "Bob");
    let stranger = user(3, "Sid");
    let video = GameMessage { id: 100, chat_id: 7 };
    // nothing was registered yet
    assert!(matches!(g.submit_proof(&alice, &video, &vec![1]), Err(Rejection::GameNotStarted)));
    g.add_trick(&alice, "a1".to_owned()).unwrap();
    g.add_trick(&bob, "b1".to_owned()).unwrap();
    // only participants may submit
    assert!(matches!(g.submit_proof(&stranger, &video, &vec![1]), Err(Rejection::NotAParticipant)));
    // numbers that name no trick are dropped; nothing left is an error
    assert!(matches!(g.submit_proof(&alice, &video, &vec![0, 2, 9]), Err(Rejection::NoValidTricks)));
    assert!(g.submit_proof(&alice, &video, &vec![1]).is_ok());
    // the same video backs no second proof of the same participant
    assert!(matches!(g.submit_proof(&alice, &video, &vec![1]), Err(Rejection::DuplicateProof)));
    // and no proof of anyone else
    assert!(matches!(g.submit_proof(&bob, &video, &vec![4]), Err(Rejection::ProofOwnedByOther)));
}

#[test]
fn proofs_are_found_by_message_reference() {
    let mut g = Game::default();
    let alice = user(1, "Alice");
    let bob = user(2, "Bob");
    g.add_trick(&alice, "a1".to_owned()).unwrap();
    g.add_trick(&bob, "b1".to_owned()).unwrap();
    let video = GameMessage { id: 100, chat_id: 7 };
    g.submit_proof(&alice, &video, &vec![1]).unwrap();
    assert!(g.proof_exists(&alice, &video));
    assert!(!g.proof_exists(&bob, &video));
    assert!(!g.proof_exists(&alice, &GameMessage { id: 100, chat_id: 8 }));
    let (owner, participant, proof) =
        g.find_participant_and_proof_by_msg(&video).expect("the proof is found");
    assert_eq!(owner.id, 1);
    assert_eq!(participant.tricks.len(), 1);
    assert_eq!(proof.msg, video);
    assert_eq!(proof.tricks_proven, vec![1]);
    assert!(g.find_participant_and_proof_by_msg(&GameMessage { id: 1, chat_id: 7 }).is_none());
    assert!(g.is_trick_proven(&alice, 1));
    assert!(!g.is_trick_proven(&bob, 4));
}

#[test]
fn prove_tricks_drops_unknown_numbers_and_duplicates() {
    let mut g = Game::default();
    let alice = user(1, "Alice");
    g.add_trick(&alice, "a1".to_owned()).unwrap();
    g.add_trick(&alice, "a2".to_owned()).unwrap();
    let video = GameMessage { id: 100, chat_id: 7 };
    let names = g.prove_tricks(&alice, &video, vec![2, 2, 9, 1]);
    assert_eq!(names, vec![(2, "a2".to_owned()), (1, "a1".to_owned())]);
    let p = g.participant_by_index(0).unwrap();
    assert_eq!(p.proofs.len(), 1);
    assert_eq!(p.proofs[0].tricks_proven, vec![2, 1]);
}

#[test]
fn reset_forgets_everything() {
    let mut g = Game::default();
    let alice = user(1, "Alice");
    g.add_trick(&alice, "a1".to_owned()).unwrap();
    g.set_game_message(GameMessage { id: 5, chat_id: 7 });
    assert!(g.game_message().is_some());
    g.reset();
    assert!(!g.started());
    assert_eq!(g.num_participants(), 0);
    assert!(g.game_message().is_none());
    assert!(g.participant_tricks(&alice).is_none());
}

#[test]
fn proof_construction_keeps_its_parts() {
    let msg = GameMessage { id: 42, chat_id: -100123 };
    let p = skate_game::types::Proof::new(&msg, vec![1, 2]);
    assert_eq!(p.msg.id, 42);
    assert_eq!(p.msg.chat_id, -100123);
    assert_eq!(p.tricks_proven, vec![1, 2]);
    assert_eq!(MAX_TRICKS, 3);
}

#[test]
fn empty_requests_change_nothing() {
    let mut g = Game::default();
    let alice = user(1, "Alice");
    // an empty batch registers nobody and starts nothing
    assert_eq!(g.add_tricks(&alice, &Vec::new()), 0);
    assert!(!g.started());
    assert_eq!(g.num_participants(), 0);
    // asking to prove an empty set of numbers is a no-op, not an error
    g.add_trick(&alice, "a1".to_owned()).unwrap();
    let video = GameMessage { id: 100, chat_id: 7 };
    let out = g.submit_proof(&alice, &video, &Vec::new()).unwrap();
    assert!(out.already_proven.is_empty());
    assert!(out.proven.is_empty());
    assert_eq!(g.participant_by_index(0).unwrap().proofs.len(), 0);
}
