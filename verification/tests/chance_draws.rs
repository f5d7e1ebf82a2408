use std::collections::HashMap;

use skate_game::chance::{Chance, default_tricks, from_chances, get};

#[test]
pub fn test_chances() {
    let tricks = default_tricks();
    let mut frequencies = HashMap::<String, usize>::new();

    const MAX: usize = 1_000_000;
    for _ in 0..MAX {
        let trick = from_chances(&tricks);

        *(frequencies.entry(trick.clone()).or_insert(0)) += 1;
    }

    let mut frequencies = frequencies.into_iter().collect::<Vec<_>>();
    frequencies.sort_by(|(_, hits_a), (_, hits_b)| hits_b.cmp(hits_a));

    for (trick, hits) in frequencies {
        println!("{}:  {}%", trick, hits as f32 / MAX as f32 * 100.0f32);
    }
}

#[test]
fn single_option_chains_resolve_deterministically() {
    // one option of weight one is always drawn, so the result is fixed
    let mut base = Chance::of("kickflip", 25);
    let chain = base.with(&[Chance::of("fakie", 1)]);
    assert_eq!(chain.resolve(), "fakie kickflip");
    // the prefix is pushed below existing requirements, deepest first
    let mut chain = chain;
    let chain = chain.with(&[Chance::of("fs", 1)]);
    assert_eq!(chain.resolve(), "fs fakie kickflip");
}

#[test]
fn empty_prefixes_leave_no_stray_spaces() {
    let mut base = Chance::of("heelflip", 25);
    let chain = base.with(&[Chance::of("", 1)]);
    assert_eq!(chain.resolve(), "heelflip");
    let mut nested = Chance::of("", 9);
    let nested = nested.with(&[Chance::of("", 3)]);
    assert_eq!(nested.resolve(), "");
}

#[test]
fn drawn_tricks_end_in_a_base_trick() {
    let bases =
        ["boardslide", "50-50", "5-0", "kickflip", "heelflip", "180", "shove-it", "no-comply 180"];
    for _ in 0..200 {
        let t = get();
        assert!(
            bases.iter().any(|b| t.ends_with(b)),
            "unexpected random trick: {:?}",
            t
        );
    }
}

#[test]
fn weighted_draws_respect_zero_weights() {
    // of two options, the zero-weighted one is never drawn
    let options = vec![Chance::of("always", 7), Chance::of("never", 0)];
    for _ in 0..100 {
        assert_eq!(from_chances(&options), "always");
    }
}
