//! What the think tags in a text come to.
use vstd::prelude::*;

use crate::provider::think_filter::{
    FilterView, Scan, awaited, emit_all, emitted, emitted_emit, emitted_emit_all, held_back,
    initial_filter, run, run_append, run_from, split_stream,
};
use crate::text::{find, occurs_at};
use crate::text_laws::find_is_least;

verus! {

/// Whether `s` ends with the first `k` characters of `tag`.
spec fn ends_in(s: Seq<char>, tag: Seq<char>, k: int) -> bool {
    0 <= k <= tag.len() && k <= s.len() && s.skip(s.len() - k) == tag.take(k)
}

proof fn tags_open_once(inside: bool)
    ensures
        awaited(inside).len() == if inside {
            8nat
        } else {
            7nat
        },
        awaited(inside)[0] == '<',
        forall|i: int| 0 < i < awaited(inside).len() ==> awaited(inside)[i] != '<',
{
    reveal_strlit("<think>");
    reveal_strlit("</think>");
}

proof fn ends_grow(s: Seq<char>, c: char, tag: Seq<char>, k: int)
    ensures
        1 <= k <= tag.len() ==> (ends_in(s.push(c), tag, k) <==> ends_in(s, tag, k - 1) && c
            == tag[k - 1]),
{
    if 1 <= k <= tag.len() {
        let t = s.push(c);
        if ends_in(t, tag, k) {
            assert(t.skip(t.len() - k)[k - 1] == tag.take(k)[k - 1]);
            let a = s.skip(s.len() - (k - 1));
            let b = tag.take(k - 1);
            assert forall|i: int| 0 <= i < k - 1 implies #[trigger] a[i] == b[i] by {
                assert(t.skip(t.len() - k)[i] == tag.take(k)[i]);
            }
            assert(a =~= b);
        }
        if ends_in(s, tag, k - 1) && c == tag[k - 1] {
            let a = t.skip(t.len() - k);
            let b = tag.take(k);
            assert forall|i: int| 0 <= i < k implies #[trigger] a[i] == b[i] by {
                if i < k - 1 {
                    assert(s.skip(s.len() - (k - 1))[i] == tag.take(k - 1)[i]);
                }
            }
            assert(a =~= b);
        }
    }
}

proof fn one_beginning(s: Seq<char>, inside: bool, m: int, k: int)
    requires
        ends_in(s, awaited(inside), m),
        1 <= k < m,
    ensures
        !ends_in(s, awaited(inside), k),
{
    let tag = awaited(inside);
    tags_open_once(inside);
    assert(s.skip(s.len() - m)[m - k] == tag.take(m)[m - k]);
    assert(s.skip(s.len() - k)[0] != tag.take(k)[0]);
}

spec fn start(inside: bool) -> Scan {
    Scan { filter: FilterView { inside, matched: 0 }, actions: Seq::empty() }
}

/// A filter that has met no whole tag holds back what may begin one, and has put out the
/// rest.
proof fn run_without_tag(s: Seq<char>, inside: bool)
    requires
        forall|i: int| !#[trigger] occurs_at(s, awaited(inside), i),
    ensures
        ({
            let scan = run(start(inside), s);
            let m = scan.filter.matched as int;
            let tag = awaited(inside);
            &&& scan.filter.inside == inside
            &&& m < tag.len()
            &&& ends_in(s, tag, m)
            &&& forall|k: int| m < k <= tag.len() ==> !#[trigger] ends_in(s, tag, k)
            &&& emitted(scan.actions, inside) == s.take(s.len() - m)
            &&& emitted(scan.actions, !inside) == Seq::<char>::empty()
        }),
    decreases s.len(),
{
    let tag = awaited(inside);
    tags_open_once(inside);
    let scan = run(start(inside), s);
    let m = scan.filter.matched as int;
    if s.len() == 0 {
        assert(s.skip(0) =~= tag.take(0));
        assert(s.take(0) =~= Seq::empty());
    } else {
        let front = s.drop_last();
        let c = s.last();
        assert(front.push(c) =~= s);
        assert forall|i: int| !#[trigger] occurs_at(front, tag, i) by {
            if occurs_at(front, tag, i) {
                assert(s.subrange(i, i + tag.len()) =~= front.subrange(i, i + tag.len()));
                assert(occurs_at(s, tag, i));
            }
        }
        run_without_tag(front, inside);
        let before = run(start(inside), front);
        let n = before.filter.matched as int;
        assert forall|k: int| 1 <= k <= tag.len() implies (#[trigger] ends_in(s, tag, k)
            <==> ends_in(front, tag, k - 1) && c == tag[k - 1]) by {
            ends_grow(front, c, tag, k);
        }
        assert(!ends_in(s, tag, tag.len() as int)) by {
            if ends_in(s, tag, tag.len() as int) {
                let at = s.len() - tag.len();
                assert(s.subrange(at, at + tag.len()) =~= s.skip(at));
                assert(tag.take(tag.len() as int) =~= tag);
                assert(occurs_at(s, tag, at));
            }
        }
        if c == tag[n] {
            assert(ends_in(s, tag, n + 1));
            assert(n + 1 < tag.len());
            assert(m == n + 1);
            assert forall|k: int| m < k <= tag.len() implies !#[trigger] ends_in(s, tag, k) by {
                assert(!ends_in(front, tag, k - 1));
            }
            assert(s.take(s.len() - m) =~= front.take(front.len() - n));
        } else {
            let held = tag.take(n);
            emitted_emit_all(before.actions, inside, held, inside);
            emitted_emit_all(before.actions, inside, held, !inside);
            assert(front.take(front.len() - n) + held =~= front) by {
                assert(front.skip(front.len() - n) == held);
            }
            let put = emit_all(before.actions, inside, held);
            emitted_emit(put, inside, c, inside);
            emitted_emit(put, inside, c, !inside);
            assert(emitted(put, inside) =~= front);
            assert(emitted(put, !inside) =~= Seq::empty());
            assert forall|k: int| 1 < k <= tag.len() implies !#[trigger] ends_in(s, tag, k) by {
                if ends_in(s, tag, k) {
                    assert(ends_in(front, tag, k - 1));
                    assert(k - 1 <= n);
                    if k - 1 < n {
                        one_beginning(front, inside, n, k - 1);
                    }
                }
            }
            assert(front.skip(front.len() as int) =~= tag.take(0));
            assert(ends_in(front, tag, 0));
            assert(ends_in(s, tag, 1) <==> c == tag[0]);
            if c == '<' {
                assert(m == 1);
                assert(s.take(s.len() - 1) =~= front);
            } else {
                assert(m == 0);
                assert(s.skip(s.len() as int) =~= tag.take(0));
                assert(s.take(s.len() as int) =~= s);
            }
        }
    }
}

spec fn out_of(scan: Scan, thinking: bool) -> Seq<char> {
    emitted(scan.actions, thinking) + emitted(held_back(scan.filter), thinking)
}

proof fn untagged(s: Seq<char>, inside: bool)
    requires
        forall|i: int| !#[trigger] occurs_at(s, awaited(inside), i),
    ensures
        out_of(run(start(inside), s), inside) == s,
        out_of(run(start(inside), s), !inside) == Seq::<char>::empty(),
{
    let scan = run(start(inside), s);
    let m = scan.filter.matched as int;
    run_without_tag(s, inside);
    let held = awaited(inside).take(m);
    emitted_emit_all(Seq::empty(), inside, held, inside);
    emitted_emit_all(Seq::empty(), inside, held, !inside);
    assert(out_of(scan, inside) =~= s) by {
        assert(s.skip(s.len() - m) == held);
        assert(s.take(s.len() - m) + s.skip(s.len() - m) =~= s);
    }
    assert(out_of(scan, !inside) =~= Seq::empty());
}

proof fn tagged(s: Seq<char>, inside: bool, at: int)
    requires
        find(s, awaited(inside)) == Some(at),
    ensures
        0 <= at <= s.len() - awaited(inside).len(),
        ({
            let rest = run(start(!inside), s.skip(at + awaited(inside).len()));
            &&& out_of(run(start(inside), s), inside) == s.take(at) + out_of(rest, inside)
            &&& out_of(run(start(inside), s), !inside) == out_of(rest, !inside)
        }),
{
    let tag = awaited(inside);
    tags_open_once(inside);
    find_is_least(s, tag, 0);
    assert(occurs_at(s, tag, at));
    let n = at + tag.len();
    let head = s.take(n);
    let tail = s.skip(n);
    let front = head.drop_last();
    assert(head + tail =~= s);
    assert forall|i: int| !#[trigger] occurs_at(front, tag, i) by {
        if occurs_at(front, tag, i) {
            assert(s.subrange(i, i + tag.len()) =~= front.subrange(i, i + tag.len()));
            assert(occurs_at(s, tag, i));
            assert(i < at);
        }
    }
    run_without_tag(front, inside);
    let before = run(start(inside), front);
    let m = before.filter.matched as int;
    let last = tag.len() - 1;
    assert(s.subrange(at, at + tag.len()) == tag);
    let a = front.skip(front.len() - last);
    let b = tag.take(last);
    assert forall|i: int| 0 <= i < last implies #[trigger] a[i] == b[i] by {
        assert(s.subrange(at, at + tag.len())[i] == tag[i]);
    }
    assert(a =~= b);
    assert(ends_in(front, tag, last));
    assert(m == last);
    assert(head.last() == tag[last]) by {
        assert(s.subrange(at, at + tag.len())[last] == tag[last]);
    }
    let turned = run(start(inside), head);
    assert(turned.filter == FilterView { inside: !inside, matched: 0 });
    assert(turned.actions == before.actions);
    assert(front.take(front.len() - m) =~= s.take(at));
    run_append(start(inside), head, tail);
    run_from(turned.filter, turned.actions, tail, inside);
    run_from(turned.filter, turned.actions, tail, !inside);
    let rest = run(start(!inside), tail);
    let whole = run(start(inside), s);
    assert(whole.filter == rest.filter);
    assert(out_of(whole, inside) =~= s.take(at) + out_of(rest, inside));
    assert(out_of(whole, !inside) =~= out_of(rest, !inside));
}

/// What stands before the first `<think>` is text, and what stands between it and the next
/// `</think>` is thinking; the tags themselves are neither, and behind them it goes on in
/// the same way. Without a `<think>` all is text, and without a `</think>` behind it all
/// the rest is thinking.
pub proof fn tags_part_the_text(s: Seq<char>)
    ensures
        match find(s, "<think>"@) {
            None => split_stream(s, false) == s && split_stream(s, true) == Seq::<char>::empty(),
            Some(i) => {
                let behind = s.skip(i + 7);
                &&& 0 <= i <= s.len() - 7
                &&& match find(behind, "</think>"@) {
                    None => split_stream(s, false) == s.take(i) && split_stream(s, true) == behind,
                    Some(j) => {
                        let rest = behind.skip(j + 8);
                        &&& 0 <= j <= behind.len() - 8
                        &&& split_stream(s, false) == s.take(i) + split_stream(rest, false)
                        &&& split_stream(s, true) == behind.take(j) + split_stream(rest, true)
                    },
                }
            },
        },
{
    tags_open_once(false);
    tags_open_once(true);
    assert(start(false) == Scan { filter: initial_filter(), actions: Seq::empty() });
    match find(s, "<think>"@) {
        None => {
            find_is_least(s, "<think>"@, 0);
            untagged(s, false);
        },
        Some(i) => {
            tagged(s, false, i);
            let behind = s.skip(i + 7);
            match find(behind, "</think>"@) {
                None => {
                    find_is_least(behind, "</think>"@, 0);
                    untagged(behind, true);
                    assert(s.take(i) + Seq::<char>::empty() =~= s.take(i));
                },
                Some(j) => {
                    tagged(behind, true, j);
                },
            }
        },
    }
}

} // verus!
