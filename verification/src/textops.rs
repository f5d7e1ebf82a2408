use vstd::prelude::*;

verus! {

/// The characters `str::trim` strips: Unicode white space.
pub open spec fn is_space_char(c: char) -> bool {
    ||| c == '\u{0009}'
    ||| c == '\u{000A}'
    ||| c == '\u{000B}'
    ||| c == '\u{000C}'
    ||| c == '\u{000D}'
    ||| c == ' '
    ||| c == '\u{0085}'
    ||| c == '\u{00A0}'
    ||| c == '\u{1680}'
    ||| ('\u{2000}' <= c && c <= '\u{200A}')
    ||| c == '\u{2028}'
    ||| c == '\u{2029}'
    ||| c == '\u{202F}'
    ||| c == '\u{205F}'
    ||| c == '\u{3000}'
}

/// `s` without its leading white space.
pub open spec fn trim_start_spec(s: Seq<char>) -> Seq<char>
    decreases s.len(),
{
    if s.len() > 0 && is_space_char(s[0]) {
        trim_start_spec(s.drop_first())
    } else {
        s
    }
}

/// `s` without its trailing white space.
pub open spec fn trim_end_spec(s: Seq<char>) -> Seq<char>
    decreases s.len(),
{
    if s.len() > 0 && is_space_char(s.last()) {
        trim_end_spec(s.drop_last())
    } else {
        s
    }
}

/// What `str::trim` leaves of `s`.
pub open spec fn trim_spec(s: Seq<char>) -> Seq<char> {
    trim_end_spec(trim_start_spec(s))
}

/// What replacing every `"  "` by `" "` leaves of `s`: matches are found left
/// to right and do not overlap, as `str::replace` finds them.
pub open spec fn collapse_spaces(s: Seq<char>) -> Seq<char>
    decreases s.len(),
{
    if s.len() < 2 {
        s
    } else if s[0] == ' ' && s[1] == ' ' {
        seq![' '] + collapse_spaces(s.skip(2))
    } else {
        seq![s[0]] + collapse_spaces(s.skip(1))
    }
}

/// Whether `c` is Unicode white space; mirrors `is_space_char`.
fn is_space(c: char) -> (r: bool)
    ensures
        r == is_space_char(c),
{
    c == '\u{0009}' || c == '\u{000A}' || c == '\u{000B}' || c == '\u{000C}' || c == '\u{000D}'
        || c == ' ' || c == '\u{0085}' || c == '\u{00A0}' || c == '\u{1680}' || ('\u{2000}' <= c
        && c <= '\u{200A}') || c == '\u{2028}' || c == '\u{2029}' || c == '\u{202F}' || c
        == '\u{205F}' || c == '\u{3000}'
}

/// Dropping one leading space at a time reaches the trimmed front.
proof fn lemma_trim_start_step(s: Seq<char>, k: int)
    requires
        0 <= k <= s.len(),
        forall|x: int| 0 <= x < k ==> is_space_char(s[x]),
        k < s.len() ==> !is_space_char(s[k]),
    ensures
        trim_start_spec(s) == s.skip(k),
    decreases k,
{
    if k == 0 {
        assert(s.skip(0) =~= s);
    } else {
        assert(is_space_char(s[0]));
        let rest = s.drop_first();
        assert(rest =~= s.skip(1));
        assert forall|x: int| 0 <= x < k - 1 implies is_space_char(rest[x]) by {
            assert(rest[x] == s[x + 1]);
        }
        lemma_trim_start_step(rest, k - 1);
        assert(rest.skip(k - 1) =~= s.skip(k));
    }
}

/// Dropping one trailing space at a time reaches the trimmed back.
proof fn lemma_trim_end_step(s: Seq<char>, k: int)
    requires
        0 <= k <= s.len(),
        forall|x: int| k <= x < s.len() ==> is_space_char(s[x]),
        k > 0 ==> !is_space_char(s[k - 1]),
    ensures
        trim_end_spec(s) == s.take(k),
    decreases s.len() - k,
{
    if k == s.len() {
        assert(s.take(k) =~= s);
    } else {
        assert(is_space_char(s.last()));
        let rest = s.drop_last();
        assert(rest =~= s.take(s.len() - 1));
        lemma_trim_end_step(rest, k);
        assert(rest.take(k) =~= s.take(k));
    }
}

/// `str::trim`, done by hand over characters.
pub(crate) fn trim_chars(v: &Vec<char>) -> (r: Vec<char>)
    ensures
        r@ == trim_spec(v@),
{
    let n = v.len();
    let mut start: usize = 0;
    while start < n && is_space(v[start])
        invariant
            n == v@.len(),
            start <= n,
            forall|x: int| 0 <= x < start ==> is_space_char(v@[x]),
        decreases n - start,
    {
        start += 1;
    }
    proof {
        lemma_trim_start_step(v@, start as int);
    }
    let mut end: usize = n;
    while end > start && is_space(v[end - 1])
        invariant
            n == v@.len(),
            start <= end <= n,
            forall|x: int| 0 <= x < start ==> is_space_char(v@[x]),
            start < v@.len() ==> !is_space_char(v@[start as int]),
            forall|x: int| end <= x < n ==> is_space_char(v@[x]),
        decreases end,
    {
        end -= 1;
    }
    let mut r: Vec<char> = Vec::new();
    let mut i: usize = start;
    while i < end
        invariant
            n == v@.len(),
            start <= i <= end <= n,
            r@ == v@.subrange(start as int, i as int),
        decreases end - i,
    {
        r.push(v[i]);
        assert(r@ =~= v@.subrange(start as int, i + 1));
        i += 1;
    }
    proof {
        let trimmed_front = v@.skip(start as int);
        assert(trim_start_spec(v@) == trimmed_front);
        assert forall|x: int| (end - start) <= x < trimmed_front.len() implies is_space_char(
            trimmed_front[x],
        ) by {
            assert(trimmed_front[x] == v@[x + start]);
        }
        if end > start {
            assert(!is_space_char(trimmed_front[end - start - 1]));
        }
        lemma_trim_end_step(trimmed_front, end - start);
        assert(trimmed_front.take(end - start) =~= v@.subrange(start as int, end as int));
    }
    r
}

/// `str::replace("  ", " ")`, done by hand over characters.
pub(crate) fn collapse_chars(v: &Vec<char>) -> (r: Vec<char>)
    ensures
        r@ == collapse_spaces(v@),
{
    let n = v.len();
    let mut r: Vec<char> = Vec::new();
    let mut i: usize = 0;
    proof {
        assert(v@.skip(0) =~= v@);
        assert(Seq::<char>::empty() + collapse_spaces(v@) =~= collapse_spaces(v@));
    }
    while i < n
        invariant
            n == v@.len(),
            i <= n,
            collapse_spaces(v@) == r@ + collapse_spaces(v@.skip(i as int)),
        decreases n - i,
    {
        let ghost before = r@;
        let ghost rest = v@.skip(i as int);
        if v[i] == ' ' && i + 1 < n && v[i + 1] == ' ' {
            r.push(' ');
            proof {
                assert(rest[0] == ' ' && rest[1] == ' ');
                assert(rest.skip(2) =~= v@.skip(i + 2));
                assert(collapse_spaces(rest) == seq![' '] + collapse_spaces(v@.skip(i + 2)));
                assert(before + (seq![' '] + collapse_spaces(v@.skip(i + 2))) =~= r@
                    + collapse_spaces(v@.skip(i + 2)));
            }
            i += 2;
        } else {
            r.push(v[i]);
            proof {
                assert(rest[0] == v@[i as int]);
                assert(rest.skip(1) =~= v@.skip(i + 1));
                if rest.len() < 2 {
                    assert(rest.len() == 1);
                    assert(collapse_spaces(v@.skip(i + 1)) =~= Seq::<char>::empty());
                    assert(collapse_spaces(rest) =~= seq![rest[0]] + collapse_spaces(
                        v@.skip(i + 1),
                    ));
                } else {
                    assert(collapse_spaces(rest) == seq![rest[0]] + collapse_spaces(
                        v@.skip(i + 1),
                    ));
                }
                assert(before + (seq![rest[0]] + collapse_spaces(v@.skip(i + 1))) =~= r@
                    + collapse_spaces(v@.skip(i + 1)));
            }
            i += 1;
        }
    }
    proof {
        assert(v@.skip(n as int) =~= Seq::<char>::empty());
        assert(r@ + Seq::<char>::empty() =~= r@);
    }
    r
}

/// Relies on str::chars: the characters of the string, in order.
#[verifier::external_body]
pub(crate) fn chars_of_str(s: &str) -> (r: Vec<char>)
    ensures
        r@ == s@,
{
    s.chars().collect()
}

/// Relies on String's FromIterator over char: the string of exactly these
/// characters, in order.
#[verifier::external_body]
pub(crate) fn string_from_chars(v: &Vec<char>) -> (r: String)
    ensures
        r@ == v@,
{
    v.iter().collect()
}

} // verus!
