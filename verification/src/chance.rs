use vstd::prelude::*;

#[allow(unused_imports)]
use rand::seq::SliceRandom;

use crate::textops::{chars_of_str, collapse_chars, collapse_spaces, string_from_chars, trim_chars,
    trim_spec};

verus! {

/// One weighted option for the random trick generator: a word, its relative
/// weight, and the options it draws a prefix from, recursively.
#[derive(Debug)]
pub struct Chance {
    pub what: String,
    pub chance_percent: usize,
    pub needs: Vec<Chance>,
}

/// Value equality of chances, spelled out recursively because `Vec` fields
/// compare by view.
pub open spec fn chance_eq(a: Chance, b: Chance) -> bool
    decreases a,
{
    &&& a.what == b.what
    &&& a.chance_percent == b.chance_percent
    &&& a.needs@.len() == b.needs@.len()
    &&& forall|i: int| 0 <= i < a.needs@.len() ==> chance_eq(#[trigger] a.needs@[i], b.needs@[i])
}

/// The sum of the options' weights.
pub open spec fn sum_weights(cs: Seq<Chance>) -> int
    decreases cs.len(),
{
    if cs.len() == 0 {
        0
    } else {
        sum_weights(cs.drop_last()) + cs.last().chance_percent
    }
}

/// A drawable option list: nonempty, with a positive total weight the
/// platform can sum.
pub open spec fn weights_ok(cs: Seq<Chance>) -> bool {
    &&& cs.len() > 0
    &&& 0 < sum_weights(cs) <= usize::MAX
}

/// A chance every draw from which terminates without a weighting error: each
/// nonempty option list on the way down is drawable.
pub open spec fn chance_wf(c: Chance) -> bool
    decreases c,
{
    c.needs@.len() == 0 || (weights_ok(c.needs@) && forall|i: int|
        0 <= i < c.needs@.len() ==> chance_wf(#[trigger] c.needs@[i]))
}

/// How deep the requirement chains of `c` go; clones keep it, so recursion
/// over drawn copies terminates.
pub open spec fn chance_depth(c: Chance) -> nat
    decreases c, 1int,
{
    needs_depth(c.needs@)
}

/// One more than the deepest chance in the list; zero for none.
pub open spec fn needs_depth(cs: Seq<Chance>) -> nat
    decreases cs, 0int,
{
    if cs.len() == 0 {
        0
    } else {
        let head = 1 + chance_depth(cs.last());
        let rest = needs_depth(cs.drop_last());
        if head > rest {
            head
        } else {
            rest
        }
    }
}

/// What a prefix and a word combine to: the two joined with one space,
/// trimmed, with double spaces collapsed.
pub open spec fn joined(prefix: Seq<char>, word: Seq<char>) -> Seq<char> {
    collapse_spaces(trim_spec(prefix + seq![' '] + word))
}

/// Whether `c` is a draw from `options`: a copy of one of them, never one of
/// weight zero.
pub open spec fn drawn_from(options: Seq<Chance>, c: Chance) -> bool {
    &&& c.chance_percent > 0
    &&& exists|i: int| 0 <= i < options.len() && chance_eq(#[trigger] options[i], c)
}

/// The strings a chance can resolve to: its own word when it needs nothing,
/// else the word behind a resolution of one of its positively weighted
/// requirements.
pub open spec fn resolves_to(c: Chance, s: Seq<char>) -> bool
    decreases c,
{
    if c.needs@.len() == 0 {
        s == c.what@
    } else {
        exists|i: int, t: Seq<char>|
            #![trigger c.needs@[i], joined(t, c.what@)]
            0 <= i < c.needs@.len() && c.needs@[i].chance_percent > 0 && resolves_to(
                c.needs@[i],
                t,
            ) && s == joined(t, c.what@)
    }
}

/// How `after` relates to `before` once the option list `cs` was worked in:
/// a chance that needed nothing now needs `cs`; one that already needed
/// something has `cs` worked into each requirement, recursively.
pub open spec fn with_applied_rel(before: Chance, cs: Seq<Chance>, after: Chance) -> bool
    decreases before,
{
    &&& after.what == before.what
    &&& after.chance_percent == before.chance_percent
    &&& if before.needs@.len() == 0 {
        &&& after.needs@.len() == cs.len()
        &&& forall|i: int| 0 <= i < cs.len() ==> chance_eq(#[trigger] after.needs@[i], cs[i])
    } else {
        &&& after.needs@.len() == before.needs@.len()
        &&& forall|i: int|
            0 <= i < before.needs@.len() ==> with_applied_rel(
                #[trigger] before.needs@[i],
                cs,
                after.needs@[i],
            )
    }
}

/// Equal chances weigh the same, list for list.
proof fn lemma_eq_seq_sum(a: Seq<Chance>, b: Seq<Chance>)
    requires
        a.len() == b.len(),
        forall|i: int| 0 <= i < a.len() ==> chance_eq(#[trigger] a[i], b[i]),
    ensures
        sum_weights(a) == sum_weights(b),
    decreases a.len(),
{
    if a.len() > 0 {
        assert forall|i: int| 0 <= i < a.drop_last().len() implies chance_eq(
            #[trigger] a.drop_last()[i],
            b.drop_last()[i],
        ) by {
            assert(a.drop_last()[i] == a[i] && b.drop_last()[i] == b[i]);
        }
        lemma_eq_seq_sum(a.drop_last(), b.drop_last());
        assert(chance_eq(a.last(), b.last()));
    }
}

/// Well-formedness carries across equality of chances.
proof fn lemma_chance_eq_wf(a: Chance, b: Chance)
    requires
        chance_eq(a, b),
        chance_wf(a),
    ensures
        chance_wf(b),
    decreases a,
{
    if a.needs@.len() > 0 {
        lemma_eq_seq_sum(a.needs@, b.needs@);
        assert forall|i: int| 0 <= i < b.needs@.len() implies chance_wf(
            #[trigger] b.needs@[i],
        ) by {
            lemma_chance_eq_wf(a.needs@[i], b.needs@[i]);
        }
    }
}

/// Depth carries across equality of chances.
proof fn lemma_chance_eq_depth(a: Chance, b: Chance)
    requires
        chance_eq(a, b),
    ensures
        chance_depth(a) == chance_depth(b),
    decreases a, 1int,
{
    lemma_eq_seq_depth(a.needs@, b.needs@);
}

proof fn lemma_eq_seq_depth(a: Seq<Chance>, b: Seq<Chance>)
    requires
        a.len() == b.len(),
        forall|i: int| 0 <= i < a.len() ==> chance_eq(#[trigger] a[i], b[i]),
    ensures
        needs_depth(a) == needs_depth(b),
    decreases a, 0int,
{
    if a.len() > 0 {
        lemma_chance_eq_depth(a.last(), b.last());
        assert forall|i: int| 0 <= i < a.drop_last().len() implies chance_eq(
            #[trigger] a.drop_last()[i],
            b.drop_last()[i],
        ) by {
            assert(a.drop_last()[i] == a[i] && b.drop_last()[i] == b[i]);
        }
        lemma_eq_seq_depth(a.drop_last(), b.drop_last());
    }
}

/// Every option in a list sits strictly below the list's depth.
proof fn lemma_depth_bound(cs: Seq<Chance>, i: int)
    requires
        0 <= i < cs.len(),
    ensures
        chance_depth(cs[i]) < needs_depth(cs),
    decreases cs.len(),
{
    if i == cs.len() - 1 {
        assert(cs[i] == cs.last());
    } else {
        assert(cs.drop_last()[i] == cs[i]);
        lemma_depth_bound(cs.drop_last(), i);
    }
}

/// What resolves from a chance resolves from its equals.
proof fn lemma_resolves_congruence(a: Chance, b: Chance, s: Seq<char>)
    requires
        chance_eq(a, b),
        resolves_to(a, s),
    ensures
        resolves_to(b, s),
    decreases a,
{
    if a.needs@.len() == 0 {
        assert(b.what@ == a.what@);
    } else {
        let (i, t) = choose|i: int, t: Seq<char>|
            #![trigger a.needs@[i], joined(t, a.what@)]
            0 <= i < a.needs@.len() && a.needs@[i].chance_percent > 0 && resolves_to(
                a.needs@[i],
                t,
            ) && s == joined(t, a.what@);
        assert(0 <= i < a.needs@.len() && resolves_to(a.needs@[i], t));
        lemma_resolves_congruence(a.needs@[i], b.needs@[i], t);
        assert(b.needs@[i].chance_percent > 0);
        assert(s == joined(t, b.what@));
        assert(resolves_to(b.needs@[i], t));
    }
}

/// A recursive copy of a chance, value for value.
fn clone_chance(c: &Chance) -> (r: Chance)
    ensures
        chance_eq(*c, r),
    decreases c,
{
    let mut kids: Vec<Chance> = Vec::new();
    let mut i: usize = 0;
    while i < c.needs.len()
        invariant
            i <= c.needs@.len(),
            kids@.len() == i,
            forall|k: int| 0 <= k < i ==> chance_eq(#[trigger] c.needs@[k], kids@[k]),
        decreases c.needs@.len() - i,
    {
        kids.push(clone_chance(&c.needs[i]));
        i += 1;
    }
    Chance { what: c.what.clone(), chance_percent: c.chance_percent, needs: kids }
}

impl Clone for Chance {
    fn clone(&self) -> (r: Self)
        ensures
            chance_eq(*self, r),
    {
        clone_chance(self)
    }
}

/// Relies on rand::seq::SliceRandom::choose_weighted over the thread-local
/// generator of rand::thread_rng, weighting each option by its
/// `chance_percent`: for a nonempty slice whose total weight is positive and
/// sums without overflow it draws one of the options, each with probability
/// weight over total, so never one of weight zero.
#[verifier::external_body]
fn choose_weighted_chance(options: &Vec<Chance>) -> (r: Chance)
    requires
        options@.len() > 0,
        0 < sum_weights(options@) <= usize::MAX,
    ensures
        drawn_from(options@, r),
{
    let mut rng = rand::thread_rng();
    options.as_slice().choose_weighted(&mut rng, |c| c.chance_percent).unwrap().clone()
}

impl Chance {
    /// A chance of `what`, weighted `chance_percent`, needing nothing.
    pub fn of(what: &str, chance_percent: usize) -> (r: Self)
        ensures
            r.what@ == what@,
            r.chance_percent == chance_percent,
            r.needs@.len() == 0,
            chance_wf(r),
    {
        Chance { what: what.to_owned(), chance_percent, needs: Vec::new() }
    }

    /// Works the option list into this chance — it becomes the requirement
    /// where there was none, and is pushed down into every requirement
    /// otherwise — and returns a copy of the result.
    pub fn with(&mut self, chances: &[Chance]) -> (r: Self)
        ensures
            with_applied_rel(*old(self), chances@, *final(self)),
            chance_eq(*final(self), r),
    {
        let updated = Self::with_applied(self, chances);
        *self = updated;
        self.clone()
    }

    fn with_applied(c: &Chance, cs: &[Chance]) -> (r: Chance)
        ensures
            with_applied_rel(*c, cs@, r),
        decreases c,
    {
        let mut kids: Vec<Chance> = Vec::new();
        if c.needs.len() == 0 {
            let mut i: usize = 0;
            while i < cs.len()
                invariant
                    i <= cs@.len(),
                    kids@.len() == i,
                    forall|k: int| 0 <= k < i ==> chance_eq(#[trigger] kids@[k], cs@[k]),
                decreases cs@.len() - i,
            {
                let copied = cs[i].clone();
                proof {
                    lemma_chance_eq_symmetry(cs@[i as int], copied);
                }
                kids.push(copied);
                i += 1;
            }
        } else {
            let mut i: usize = 0;
            while i < c.needs.len()
                invariant
                    i <= c.needs@.len(),
                    kids@.len() == i,
                    forall|k: int|
                        0 <= k < i ==> with_applied_rel(#[trigger] c.needs@[k], cs@, kids@[k]),
                decreases c.needs@.len() - i,
            {
                kids.push(Self::with_applied(&c.needs[i], cs));
                i += 1;
            }
        }
        Chance { what: c.what.clone(), chance_percent: c.chance_percent, needs: kids }
    }

    /// Draws a concrete trick string from this chance: its word, prefixed by
    /// a draw from its requirements when it has any.
    pub fn resolve(&self) -> (r: String)
        requires
            chance_wf(*self),
        ensures
            resolves_to(*self, r@),
        decreases chance_depth(*self), 1int,
    {
        if self.needs.len() == 0 {
            return self.what.clone();
        }
        let prefix = from_chances(&self.needs);
        let ghost i = choose|i: int|
            0 <= i < self.needs@.len() && (#[trigger] self.needs@[i]).chance_percent > 0
                && resolves_to(self.needs@[i], prefix@);
        proof {
            assert(0 <= i < self.needs@.len() && self.needs@[i].chance_percent > 0
                && resolves_to(self.needs@[i], prefix@));
        }
        let mut buf = chars_of_str(prefix.as_str());
        buf.push(' ');
        let word = chars_of_str(self.what.as_str());
        let mut k: usize = 0;
        while k < word.len()
            invariant
                k <= word@.len(),
                buf@ == prefix@ + seq![' '] + word@.subrange(0, k as int),
            decreases word@.len() - k,
        {
            buf.push(word[k]);
            assert(buf@ =~= prefix@ + seq![' '] + word@.subrange(0, k + 1));
            k += 1;
        }
        proof {
            assert(word@.subrange(0, word@.len() as int) =~= word@);
        }
        let trimmed = trim_chars(&buf);
        let collapsed = collapse_chars(&trimmed);
        let out = string_from_chars(&collapsed);
        proof {
            assert(out@ == joined(prefix@, self.what@));
            assert(resolves_to(self.needs@[i], prefix@));
            assert(resolves_to(*self, out@)) by {
                reveal_with_fuel(resolves_to, 2);
                assert(0 <= i < self.needs@.len() && self.needs@[i].chance_percent > 0
                    && resolves_to(self.needs@[i], prefix@) && out@ == joined(
                    prefix@,
                    self.what@,
                ));
            }
        }
        out
    }
}

/// Chance equality runs both ways.
proof fn lemma_chance_eq_symmetry(a: Chance, b: Chance)
    requires
        chance_eq(a, b),
    ensures
        chance_eq(b, a),
    decreases a,
{
    assert forall|i: int| 0 <= i < b.needs@.len() implies chance_eq(
        #[trigger] b.needs@[i],
        a.needs@[i],
    ) by {
        lemma_chance_eq_symmetry(a.needs@[i], b.needs@[i]);
    }
}

/// Draws one option from a drawable list, weighted, and resolves it.
pub fn from_chances(chances: &Vec<Chance>) -> (r: String)
    requires
        weights_ok(chances@),
        forall|i: int| 0 <= i < chances@.len() ==> chance_wf(#[trigger] chances@[i]),
    ensures
        exists|i: int|
            0 <= i < chances@.len() && (#[trigger] chances@[i]).chance_percent > 0 && resolves_to(
                chances@[i],
                r@,
            ),
    decreases needs_depth(chances@), 0int,
{
    let chosen = choose_weighted_chance(chances);
    let ghost i = choose|i: int|
        0 <= i < chances@.len() && chance_eq(#[trigger] chances@[i], chosen)
            && chosen.chance_percent > 0;
    proof {
        lemma_chance_eq_wf(chances@[i], chosen);
        lemma_chance_eq_depth(chances@[i], chosen);
        lemma_depth_bound(chances@, i);
    }
    let s = chosen.resolve();
    proof {
        lemma_chance_eq_symmetry(chances@[i], chosen);
        lemma_resolves_congruence(chosen, chances@[i], s@);
    }
    s
}

/// The base words the built-in table draws from.
pub open spec fn is_base_trick(w: Seq<char>) -> bool {
    ||| w == "boardslide"@
    ||| w == "50-50"@
    ||| w == "5-0"@
    ||| w == "kickflip"@
    ||| w == "heelflip"@
    ||| w == "180"@
    ||| w == "shove-it"@
    ||| w == "no-comply 180"@
}

/// A random trick from the built-in table: one of the base tricks, with
/// stance, side and speed prefixes drawn as the table prescribes.
pub fn get() -> (r: String)
    ensures
        exists|c: Chance|
            chance_wf(c) && is_base_trick(c.what@) && #[trigger] resolves_to(c, r@),
{
    let tricks = default_tricks();
    let r = from_chances(&tricks);
    proof {
        let i = choose|i: int|
            0 <= i < tricks@.len() && (#[trigger] tricks@[i]).chance_percent > 0 && resolves_to(
                tricks@[i],
                r@,
            );
        assert(chance_wf(tricks@[i]) && is_base_trick(tricks@[i].what@) && resolves_to(
            tricks@[i],
            r@,
        ));
    }
    r
}

/// Lists whose weights agree entry for entry weigh the same in total.
proof fn lemma_sum_same_percents(a: Seq<Chance>, b: Seq<Chance>)
    requires
        a.len() == b.len(),
        forall|i: int| 0 <= i < a.len() ==> (#[trigger] a[i]).chance_percent == b[i].chance_percent,
    ensures
        sum_weights(a) == sum_weights(b),
    decreases a.len(),
{
    if a.len() > 0 {
        assert forall|i: int| 0 <= i < a.drop_last().len() implies (#[trigger] a.drop_last()[
            i
        ]).chance_percent == b.drop_last()[i].chance_percent by {
            assert(a.drop_last()[i] == a[i] && b.drop_last()[i] == b[i]);
        }
        lemma_sum_same_percents(a.drop_last(), b.drop_last());
    }
}

/// Working a drawable, well-formed option list into a well-formed chance
/// keeps the chance well-formed.
proof fn lemma_with_preserves_wf(before: Chance, cs: Seq<Chance>, after: Chance)
    requires
        with_applied_rel(before, cs, after),
        chance_wf(before),
        weights_ok(cs),
        forall|i: int| 0 <= i < cs.len() ==> chance_wf(#[trigger] cs[i]),
    ensures
        chance_wf(after),
    decreases before,
{
    if before.needs@.len() == 0 {
        assert forall|i: int| 0 <= i < after.needs@.len() implies (#[trigger] after.needs@[
            i
        ]).chance_percent == cs[i].chance_percent by {
            assert(chance_eq(after.needs@[i], cs[i]));
        }
        lemma_sum_same_percents(after.needs@, cs);
        assert forall|i: int| 0 <= i < after.needs@.len() implies chance_wf(
            #[trigger] after.needs@[i],
        ) by {
            lemma_chance_eq_symmetry(after.needs@[i], cs[i]);
            lemma_chance_eq_wf(cs[i], after.needs@[i]);
        }
    } else {
        assert forall|i: int| 0 <= i < after.needs@.len() implies (#[trigger] after.needs@[
            i
        ]).chance_percent == before.needs@[i].chance_percent by {
            assert(with_applied_rel(before.needs@[i], cs, after.needs@[i]));
        }
        lemma_sum_same_percents(after.needs@, before.needs@);
        assert forall|i: int| 0 <= i < after.needs@.len() implies chance_wf(
            #[trigger] after.needs@[i],
        ) by {
            lemma_with_preserves_wf(before.needs@[i], cs, after.needs@[i]);
        }
    }
}

/// Works one option list into a base chance and keeps it drawable.
fn extend_chance(base: Chance, cs: &Vec<Chance>) -> (r: Chance)
    requires
        chance_wf(base),
        weights_ok(cs@),
        forall|i: int| 0 <= i < cs@.len() ==> chance_wf(#[trigger] cs@[i]),
    ensures
        r.what == base.what,
        r.chance_percent == base.chance_percent,
        chance_wf(r),
{
    let ghost base0 = base;
    let mut base = base;
    let updated = base.with(cs.as_slice());
    proof {
        lemma_with_preserves_wf(base0, cs@, base);
        lemma_chance_eq_wf(base, updated);
    }
    updated
}

/// The table the random trick is drawn from: slides and grinds with a side,
/// flips and rotations with stance, side and speed prefixes.
pub fn default_tricks() -> (r: Vec<Chance>)
    ensures
        weights_ok(r@),
        forall|i: int| 0 <= i < r@.len() ==> chance_wf(#[trigger] r@[i]),
        forall|i: int| 0 <= i < r@.len() ==> is_base_trick((#[trigger] r@[i]).what@),
{
    let mut stances: Vec<Chance> = Vec::new();
    stances.push(Chance::of("", 70));
    stances.push(Chance::of("fakie", 40));
    stances.push(Chance::of("nollie", 10));
    stances.push(Chance::of("switch", 10));
    let mut sides: Vec<Chance> = Vec::new();
    sides.push(Chance::of("fs", 50));
    sides.push(Chance::of("bs", 50));
    let mut more_speed: Vec<Chance> = Vec::new();
    more_speed.push(Chance::of("", 75));
    more_speed.push(Chance::of("(на ходах)", 25));
    proof {
        reveal_with_fuel(sum_weights, 6);
        assert(sum_weights(stances@) == 130);
        assert(sum_weights(sides@) == 100);
        assert(sum_weights(more_speed@) == 100);
    }
    let t0 = extend_chance(Chance::of("boardslide", 15), &sides);
    let t1 = extend_chance(Chance::of("50-50", 15), &sides);
    let t2 = extend_chance(Chance::of("5-0", 10), &sides);
    let t3 = extend_chance(extend_chance(Chance::of("kickflip", 25), &stances), &more_speed);
    let t4 = extend_chance(extend_chance(Chance::of("heelflip", 25), &stances), &more_speed);
    let t5 = extend_chance(extend_chance(Chance::of("180", 30), &sides), &more_speed);
    let t6 = extend_chance(
        extend_chance(extend_chance(Chance::of("shove-it", 40), &sides), &stances),
        &more_speed,
    );
    let t7 = Chance::of("no-comply 180", 10);
    let mut tricks: Vec<Chance> = Vec::new();
    tricks.push(t0);
    tricks.push(t1);
    tricks.push(t2);
    tricks.push(t3);
    tricks.push(t4);
    tricks.push(t5);
    tricks.push(t6);
    tricks.push(t7);
    proof {
        assert(tricks@ =~= seq![t0, t1, t2, t3, t4, t5, t6, t7]);
        reveal_with_fuel(sum_weights, 10);
        assert(sum_weights(tricks@) == 170);
    }
    tricks
}

} // verus!
