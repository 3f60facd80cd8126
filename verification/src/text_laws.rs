//! Laws of searching, trimming, splitting and joining.
use vstd::prelude::*;

use crate::text::{
    contains, find, find_from, is_white, join, occurs_at, split, trim, trim_end, trim_start,
};

verus! {

/// The search finds the first place: nothing stands before it.
pub proof fn find_least(hay: Seq<char>, needle: Seq<char>, from: int, at: int)
    requires
        0 <= from <= at,
        occurs_at(hay, needle, at),
        forall|i: int| from <= i < at ==> !#[trigger] occurs_at(hay, needle, i),
    ensures
        find_from(hay, needle, from) == Some(at),
    decreases at - from,
{
    if from < at {
        assert(!occurs_at(hay, needle, from));
        find_least(hay, needle, from + 1, at);
    }
}

/// What the search finds is there, and nothing stands before it.
pub proof fn find_is_least(hay: Seq<char>, needle: Seq<char>, from: int)
    requires
        0 <= from,
    ensures
        match find_from(hay, needle, from) {
            Some(at) => from <= at && occurs_at(hay, needle, at) && forall|i: int|
                from <= i < at ==> !#[trigger] occurs_at(hay, needle, i),
            None => forall|i: int| from <= i ==> !#[trigger] occurs_at(hay, needle, i),
        },
    decreases hay.len() + 1 - from,
{
    if from + needle.len() > hay.len() {
    } else if occurs_at(hay, needle, from) {
    } else {
        find_is_least(hay, needle, from + 1);
        match find_from(hay, needle, from + 1) {
            Some(at) => {
                assert forall|i: int| from <= i < at implies !#[trigger] occurs_at(
                    hay,
                    needle,
                    i,
                ) by {
                    if i > from {
                        assert(from + 1 <= i);
                    }
                }
            },
            None => {
                assert forall|i: int| from <= i implies !#[trigger] occurs_at(hay, needle, i) by {
                    if i > from {
                        assert(from + 1 <= i);
                    }
                }
            },
        }
    }
}

/// A text holds another where it stands at some place in it, and nowhere else.
pub proof fn contains_somewhere(hay: Seq<char>, needle: Seq<char>)
    ensures
        contains(hay, needle) <==> exists|i: int| #[trigger] occurs_at(hay, needle, i),
{
    find_is_least(hay, needle, 0);
    if exists|i: int| #[trigger] occurs_at(hay, needle, i) {
        let i = choose|i: int| #[trigger] occurs_at(hay, needle, i);
        assert(0 <= i);
    }
}

/// A text holds itself.
pub proof fn contains_itself(s: Seq<char>)
    ensures
        contains(s, s),
{
    assert(s.subrange(0, s.len() as int) =~= s);
    assert(occurs_at(s, s, 0));
    contains_somewhere(s, s);
}

/// A text holds its end.
pub proof fn holds_the_end(a: Seq<char>, b: Seq<char>)
    ensures
        contains(a + b, b),
{
    let n = a.len() as int;
    assert((a + b).subrange(n, n + b.len()) =~= b);
    assert(occurs_at(a + b, b, n));
    contains_somewhere(a + b, b);
}

/// What stands in the front of a text stands in the whole.
pub proof fn holds_still(a: Seq<char>, b: Seq<char>, part: Seq<char>)
    requires
        contains(a, part),
    ensures
        contains(a + b, part),
{
    contains_somewhere(a, part);
    let i = choose|i: int| #[trigger] occurs_at(a, part, i);
    assert((a + b).subrange(i, i + part.len()) =~= a.subrange(i, i + part.len()));
    assert(occurs_at(a + b, part, i));
    contains_somewhere(a + b, part);
}

/// A text holds whatever stands between its ends.
pub proof fn holds_within(a: Seq<char>, part: Seq<char>, b: Seq<char>)
    ensures
        contains(a + part + b, part),
{
    let n = a.len() as int;
    assert((a + part + b).subrange(n, n + part.len()) =~= part);
    assert(occurs_at(a + part + b, part, n));
    contains_somewhere(a + part + b, part);
}

/// A join, taken apart at its first part.
pub proof fn join_front(parts: Seq<Seq<char>>, sep: Seq<char>)
    requires
        parts.len() >= 2,
    ensures
        join(parts, sep) == parts[0] + sep + join(parts.skip(1), sep),
    decreases parts.len(),
{
    let tail = parts.skip(1);
    if parts.len() == 2 {
        assert(parts.drop_last().len() == 1);
        assert(parts.drop_last()[0] == parts[0]);
        assert(tail[0] == parts[1]);
        assert(join(parts.drop_last(), sep) == parts[0]);
        assert(join(tail, sep) == parts[1]);
    } else {
        join_front(parts.drop_last(), sep);
        assert(parts.drop_last().skip(1) =~= tail.drop_last());
        assert(tail.last() == parts.last());
        let inner = join(tail.drop_last(), sep);
        assert((parts[0] + sep + inner) + sep + parts.last() =~= parts[0] + sep + (inner + sep
            + parts.last()));
    }
}

/// A text is its pieces, joined.
pub proof fn split_joins_back(s: Seq<char>, sep: Seq<char>)
    requires
        sep.len() > 0,
    ensures
        join(split(s, sep), sep) == s,
        split(s, sep).len() > 0,
    decreases s.len(),
{
    find_is_least(s, sep, 0);
    match find(s, sep) {
        Some(i) => {
            let rest = s.skip(i + sep.len());
            split_joins_back(rest, sep);
            let parts = split(s, sep);
            assert(parts == seq![s.take(i)] + split(rest, sep));
            assert(parts.skip(1) =~= split(rest, sep));
            join_front(parts, sep);
            assert(s.subrange(i, i + sep.len()) == sep);
            assert(s.take(i) + sep + rest =~= s) by {
                assert forall|k: int| 0 <= k < s.len() implies s[k] == (s.take(i) + sep
                    + rest)[k] by {
                    if i <= k < i + sep.len() {
                        assert(s.subrange(i, i + sep.len())[k - i] == s[k]);
                    }
                }
            }
        },
        None => {},
    }
}

/// Trimming leaves nothing to trim in front.
pub proof fn trim_start_shape(s: Seq<char>)
    ensures
        trim_start(s).len() <= s.len(),
        trim_start(s) == s.skip(s.len() - trim_start(s).len()),
        trim_start(s).len() > 0 ==> !is_white(trim_start(s)[0]),
    decreases s.len(),
{
    if s.len() > 0 && is_white(s[0]) {
        trim_start_shape(s.skip(1));
        let n = trim_start(s).len();
        assert(s.skip(1).skip(s.len() - 1 - n) =~= s.skip(s.len() - n));
    } else {
        assert(s.skip(0) =~= s);
    }
}

/// Trimming leaves nothing to trim behind.
pub proof fn trim_end_shape(s: Seq<char>)
    ensures
        trim_end(s).len() <= s.len(),
        trim_end(s) == s.take(trim_end(s).len() as int),
        trim_end(s).len() > 0 ==> !is_white(trim_end(s).last()),
    decreases s.len(),
{
    if s.len() > 0 && is_white(s.last()) {
        trim_end_shape(s.drop_last());
        let n = trim_end(s).len() as int;
        assert(s.drop_last().take(n) =~= s.take(n));
    } else {
        assert(s.take(s.len() as int) =~= s);
    }
}

/// A trimmed text neither begins nor ends with white space, and is no longer than the
/// text.
pub proof fn trim_shape(s: Seq<char>)
    ensures
        trim(s).len() <= s.len(),
        trim(s).len() > 0 ==> !is_white(trim(s)[0]) && !is_white(trim(s).last()),
{
    trim_start_shape(s);
    trim_end_shape(trim_start(s));
}

/// A text that neither begins nor ends with white space is left as it is.
pub proof fn trim_of_trimmed(s: Seq<char>)
    requires
        s.len() > 0 ==> !is_white(s[0]) && !is_white(s.last()),
    ensures
        trim(s) == s,
{
}

/// A text that begins with something else than white space keeps its beginning.
pub proof fn trim_end_keeps_start(s: Seq<char>)
    requires
        s.len() > 0,
        !is_white(s[0]),
    ensures
        trim_end(s).len() > 0,
    decreases s.len(),
{
    if is_white(s.last()) {
        assert(s.drop_last()[0] == s[0]);
        trim_end_keeps_start(s.drop_last());
    }
}

/// White space before a text with more than white space is trimmed off that text alone;
/// before any other, off what follows too.
pub proof fn trim_start_of_two(a: Seq<char>, b: Seq<char>)
    ensures
        trim_start(a).len() > 0 ==> trim_start(a + b) == trim_start(a) + b,
        trim_start(a).len() == 0 ==> trim_start(a + b) == trim_start(b),
    decreases a.len(),
{
    if a.len() == 0 {
        assert(a + b =~= b);
    } else {
        assert((a + b)[0] == a[0]);
        assert((a + b).skip(1) =~= a.skip(1) + b);
        if is_white(a[0]) {
            trim_start_of_two(a.skip(1), b);
        }
    }
}

/// White space behind a text with more than white space is trimmed off that text alone;
/// behind any other, off what comes before too.
pub proof fn trim_end_of_two(a: Seq<char>, b: Seq<char>)
    ensures
        trim_end(b).len() > 0 ==> trim_end(a + b) == a + trim_end(b),
        trim_end(b).len() == 0 ==> trim_end(a + b) == trim_end(a),
    decreases b.len(),
{
    if b.len() == 0 {
        assert(a + b =~= a);
    } else {
        assert((a + b).last() == b.last());
        assert((a + b).drop_last() =~= a + b.drop_last());
        if is_white(b.last()) {
            trim_end_of_two(a, b.drop_last());
        }
    }
}

/// What is left of a text that is trimmed at one end or at both.
pub proof fn trim_lengths(s: Seq<char>)
    ensures
        trim(s).len() <= trim_start(s).len(),
        trim(s).len() == trim_start(s).len() ==> trim(s) == trim_start(s),
        trim(s).len() <= trim_end(s).len(),
        trim(s).len() == 0 ==> trim_start(s).len() == 0 && trim_end(s).len() == 0,
{
    let t = trim_start(s);
    trim_start_shape(s);
    trim_end_shape(t);
    if t.len() > 0 {
        trim_end_keeps_start(t);
    }
    if trim(s).len() == t.len() {
        assert(t.take(t.len() as int) =~= t);
    }
    let lead = s.take(s.len() - t.len());
    assert(lead + t =~= s);
    trim_end_of_two(lead, t);
    if t.len() == 0 {
        all_white_is_trimmed(s);
    }
}

proof fn all_white_is_trimmed(s: Seq<char>)
    requires
        trim_start(s).len() == 0,
    ensures
        trim_end(s).len() == 0,
    decreases s.len(),
{
    if s.len() > 0 {
        all_white_is_trimmed(s.skip(1));
        assert(seq![s[0]] + s.skip(1) =~= s);
        trim_end_of_two(seq![s[0]], s.skip(1));
        let first = seq![s[0]];
        assert(first.last() == s[0]);
        assert(trim_end(first.drop_last()).len() == 0);
    }
}

/// What is left of a trimmed text is no longer than what is left of a text that holds it at
/// one of its ends.
pub proof fn trim_of_two(a: Seq<char>, b: Seq<char>)
    ensures
        trim(a).len() <= trim(a + b).len(),
        trim(b).len() <= trim(a + b).len(),
{
    trim_lengths(a);
    trim_lengths(b);
    trim_start_of_two(a, b);
    if trim_start(a).len() > 0 {
        trim_end_of_two(trim_start(a), b);
    }
}

/// Trimming twice is trimming once.
pub proof fn trim_is_idempotent(s: Seq<char>)
    ensures
        trim(trim(s)) == trim(s),
{
    trim_shape(s);
    trim_of_trimmed(trim(s));
}

} // verus!
