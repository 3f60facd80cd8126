//! What holds of the store whatever is done to it.
use vstd::prelude::*;

use crate::memory::error::MemoryErrorView;
use crate::memory::files::Files;
use crate::memory::store::{
    ENTRY_DELIMITER, MEMORY_KEY, Outcome, StoreView, Target, USER_KEY, added, backup_key,
    closed_off, closing_off_cuts, drifted, entries_in, entries_of, grown, guarded, hold_all,
    kept_pieces, key_of, matching, only_match, parsed, ready, removed, rendered, replaced,
    runs_into_delimiter, spliced,
};
use crate::memory::threats::HitView;
use crate::text::{contains, find, is_white, occurs_at, split, trim, trim_end, trim_start};
use crate::text_laws::{
    contains_itself, contains_somewhere, find_is_least, find_least, join_front, split_joins_back,
    trim_end_keeps_start, trim_end_of_two, trim_end_shape, trim_is_idempotent, trim_lengths,
    trim_of_trimmed, trim_of_two, trim_shape, trim_start_of_two, trim_start_shape,
};

verus! {

/// Whether a text is one that the parser hands out: not empty, and trimmed.
pub open spec fn trimmed_entry(entry: Seq<char>) -> bool {
    entry.len() > 0 && trim(entry) == entry
}

/// Whether a delimiter put behind an entry is the first one in it: no delimiter stands in
/// the entry, nor begins at its end.
pub open spec fn closed_entry(entry: Seq<char>) -> bool {
    !contains(entry.push('\n'), ENTRY_DELIMITER@)
}

/// Whether entries can be told apart again once they are written: each but the last is
/// closed, and the last holds no delimiter.
pub open spec fn separable(entries: Seq<Seq<char>>) -> bool {
    &&& forall|i: int| 0 <= i < entries.len() - 1 ==> closed_entry(#[trigger] entries[i])
    &&& entries.len() > 0 ==> !contains(entries.last(), ENTRY_DELIMITER@)
}

proof fn delimiter_shape()
    ensures
        ENTRY_DELIMITER@.len() == 3,
        ENTRY_DELIMITER@[0] == '\n',
        ENTRY_DELIMITER@[1] == '§',
        ENTRY_DELIMITER@[2] == '\n',
{
    reveal_strlit("\n§\n");
}

proof fn first_delimiter(entry: Seq<char>, rest: Seq<char>)
    requires
        closed_entry(entry),
    ensures
        find(entry + ENTRY_DELIMITER@ + rest, ENTRY_DELIMITER@) == Some(entry.len() as int),
{
    delimiter_shape();
    let sep = ENTRY_DELIMITER@;
    let s = entry + sep + rest;
    let n = entry.len() as int;
    assert(s.subrange(n, n + 3) =~= sep);
    contains_somewhere(entry.push('\n'), sep);
    assert forall|i: int| 0 <= i < n implies !#[trigger] occurs_at(s, sep, i) by {
        if occurs_at(s, sep, i) {
            assert(s.subrange(i, i + 3)[0] == s[i]);
            assert(s.subrange(i, i + 3)[1] == s[i + 1]);
            assert(s.subrange(i, i + 3)[2] == s[i + 2]);
            if i + 1 == n {
                assert(s[i + 1] == sep[0]);
            } else {
                assert(entry.push('\n').subrange(i, i + 3) =~= sep);
                assert(occurs_at(entry.push('\n'), sep, i));
            }
        }
    }
    find_least(s, sep, 0, n);
}

proof fn split_of_join(entries: Seq<Seq<char>>)
    requires
        entries.len() > 0,
        separable(entries),
    ensures
        split(rendered(entries), ENTRY_DELIMITER@) == entries,
    decreases entries.len(),
{
    delimiter_shape();
    let sep = ENTRY_DELIMITER@;
    if entries.len() == 1 {
        assert(entries.last() == entries[0]);
        assert(split(rendered(entries), sep) =~= entries);
    } else {
        let tail = entries.skip(1);
        assert forall|i: int| 0 <= i < tail.len() - 1 implies closed_entry(#[trigger] tail[i]) by {
            assert(tail[i] == entries[i + 1]);
        }
        assert(tail.last() == entries.last());
        split_of_join(tail);
        join_front(entries, sep);
        let rest = rendered(tail);
        let s = entries[0] + sep + rest;
        assert(closed_entry(entries[0]));
        first_delimiter(entries[0], rest);
        let n = entries[0].len() as int;
        assert(s.take(n) =~= entries[0]);
        assert(s.skip(n + 3) =~= rest);
        assert(seq![entries[0]] + tail =~= entries);
    }
}

proof fn kept_of_trimmed(entries: Seq<Seq<char>>)
    requires
        forall|i: int| 0 <= i < entries.len() ==> trimmed_entry(#[trigger] entries[i]),
    ensures
        kept_pieces(entries) == entries,
    decreases entries.len(),
{
    if entries.len() > 0 {
        let init = entries.drop_last();
        assert forall|i: int| 0 <= i < init.len() implies trimmed_entry(#[trigger] init[i]) by {
            assert(init[i] == entries[i]);
        }
        kept_of_trimmed(init);
        assert(trimmed_entry(entries[entries.len() - 1]));
        assert(init.push(entries.last()) =~= entries);
    } else {
        assert(entries =~= Seq::empty());
    }
}

/// What is written is read back: entries that can be told apart come back from the file
/// as they were, in their order.
pub proof fn entries_round_trip(entries: Seq<Seq<char>>)
    requires
        separable(entries),
        forall|i: int| 0 <= i < entries.len() ==> trimmed_entry(#[trigger] entries[i]),
    ensures
        parsed(rendered(entries)) == entries,
{
    if entries.len() > 0 {
        split_of_join(entries);
        kept_of_trimmed(entries);
    } else {
        delimiter_shape();
        let none = Seq::<char>::empty();
        assert(rendered(entries) =~= none);
        find_is_least(none, ENTRY_DELIMITER@, 0);
        let parts = split(none, ENTRY_DELIMITER@);
        assert(parts == seq![none]);
        assert(parts.drop_last() =~= Seq::empty());
        assert(kept_pieces(parts.drop_last()) =~= Seq::empty());
        assert(trim(none) =~= none);
        assert(entries =~= Seq::empty());
    }
}

proof fn kept_are_trimmed(parts: Seq<Seq<char>>)
    ensures
        forall|i: int|
            0 <= i < kept_pieces(parts).len() ==> trimmed_entry(#[trigger] kept_pieces(parts)[i]),
    decreases parts.len(),
{
    if parts.len() > 0 {
        let before = kept_pieces(parts.drop_last());
        kept_are_trimmed(parts.drop_last());
        trim_is_idempotent(parts.last());
        assert forall|i: int| 0 <= i < kept_pieces(parts).len() implies trimmed_entry(
            #[trigger] kept_pieces(parts)[i],
        ) by {
            if i < before.len() {
                assert(kept_pieces(parts)[i] == before[i]);
            }
        }
    }
}

/// Every entry that is read is trimmed and not empty.
pub proof fn read_entries_are_trimmed(raw: Seq<char>)
    ensures
        forall|i: int| 0 <= i < parsed(raw).len() ==> trimmed_entry(#[trigger] parsed(raw)[i]),
{
    kept_are_trimmed(split(raw, ENTRY_DELIMITER@));
}

proof fn rendered_push_len(entries: Seq<Seq<char>>, entry: Seq<char>)
    ensures
        rendered(entries.push(entry)).len() == entry.len() + (if entries.len() == 0 {
            0
        } else {
            rendered(entries).len() + 3
        }),
{
    delimiter_shape();
    assert(entries.push(entry).drop_last() =~= entries);
}

proof fn kept_are_shorter(parts: Seq<Seq<char>>)
    ensures
        rendered(kept_pieces(parts)).len() <= rendered(parts).len(),
        parts.len() == 0 ==> kept_pieces(parts).len() == 0,
    decreases parts.len(),
{
    if parts.len() > 0 {
        let init = parts.drop_last();
        let last = parts.last();
        kept_are_shorter(init);
        rendered_push_len(init, last);
        assert(init.push(last) =~= parts);
        trim_shape(last);
        rendered_push_len(kept_pieces(init), trim(last));
    }
}

/// Reading and writing a file again never makes it longer.
pub proof fn rewriting_never_grows(raw: Seq<char>)
    ensures
        rendered(parsed(raw)).len() <= raw.len(),
{
    delimiter_shape();
    split_joins_back(raw, ENTRY_DELIMITER@);
    kept_are_shorter(split(raw, ENTRY_DELIMITER@));
}

proof fn rendered_len_bounds(entries: Seq<Seq<char>>, i: int)
    requires
        0 <= i < entries.len(),
    ensures
        entries[i].len() <= rendered(entries).len(),
        rendered(entries.remove(i)).len() <= rendered(entries).len(),
    decreases entries.len(),
{
    let init = entries.drop_last();
    let last = entries.last();
    assert(init.push(last) =~= entries);
    rendered_push_len(init, last);
    if i == entries.len() - 1 {
        assert(entries.remove(i) =~= init);
    } else {
        rendered_len_bounds(init, i);
        assert(entries.remove(i) =~= init.remove(i).push(last));
        rendered_push_len(init.remove(i), last);
    }
}

/// Whether the file of a store is within its cap.
pub open spec fn within_cap(store: StoreView, files: Files, target: Target) -> bool {
    files.contains_key(key_of(target)) ==> files[key_of(target)].len() <= store.limit(target)
}

proof fn keys_differ(target: Target, other: Target, now: u64)
    ensures
        backup_key(target, now) != key_of(other),
        target != other ==> key_of(target) != key_of(other),
{
    reveal_strlit("memory/MEMORY.md");
    reveal_strlit("memory/USER.md");
    reveal_strlit(".bak.");
    assert(MEMORY_KEY@.len() == 16);
    assert(USER_KEY@.len() == 14);
    assert(backup_key(target, now).len() >= key_of(target).len() + 5);
}

proof fn guard_leaves_stores(files: Files, target: Target, limit: nat, now: u64, other: Target)
    ensures
        guarded(files, target, limit, now).files.contains_key(key_of(other)) == files.contains_key(
            key_of(other),
        ),
        files.contains_key(key_of(other)) ==> guarded(files, target, limit, now).files[key_of(
            other,
        )] == files[key_of(other)],
{
    keys_differ(target, other, now);
}

proof fn matches_are_places(entries: Seq<Seq<char>>, search: Seq<char>)
    ensures
        forall|k: int|
            0 <= k < matching(entries, search).len() ==> 0 <= #[trigger] matching(
                entries,
                search,
            )[k] < entries.len(),
    decreases entries.len(),
{
    if entries.len() > 0 {
        let before = matching(entries.drop_last(), search);
        matches_are_places(entries.drop_last(), search);
        assert forall|k: int| 0 <= k < matching(entries, search).len() implies 0
            <= #[trigger] matching(entries, search)[k] < entries.len() by {
            if k < before.len() {
                assert(matching(entries, search)[k] == before[k]);
            }
        }
    }
}

/// How many characters entries take up with a delimiter behind each.
spec fn spread(entries: Seq<Seq<char>>) -> nat {
    if entries.len() == 0 {
        0
    } else {
        rendered(entries).len() + 3
    }
}

proof fn spread_of_push(entries: Seq<Seq<char>>, entry: Seq<char>)
    ensures
        spread(entries.push(entry)) == spread(entries) + entry.len() + 3,
{
    rendered_push_len(entries, entry);
}

proof fn spread_of_two(a: Seq<Seq<char>>, b: Seq<Seq<char>>)
    ensures
        spread(a + b) == spread(a) + spread(b),
    decreases b.len(),
{
    if b.len() == 0 {
        assert(a + b =~= a);
    } else {
        let init = b.drop_last();
        spread_of_two(a, init);
        spread_of_push(a + init, b.last());
        spread_of_push(init, b.last());
        assert((a + init).push(b.last()) =~= a + b);
        assert(init.push(b.last()) =~= b);
    }
}

proof fn shorter_entries_spread_less(a: Seq<Seq<char>>, b: Seq<Seq<char>>)
    requires
        a.len() == b.len(),
        forall|i: int| 0 <= i < a.len() ==> (#[trigger] a[i]).len() <= b[i].len(),
    ensures
        spread(a) <= spread(b),
    decreases a.len(),
{
    if a.len() > 0 {
        let (c, d) = (a.drop_last(), b.drop_last());
        assert forall|i: int| 0 <= i < c.len() implies (#[trigger] c[i]).len() <= d[i].len() by {
            assert(c[i] == a[i]);
        }
        shorter_entries_spread_less(c, d);
        spread_of_push(c, a.last());
        spread_of_push(d, b.last());
        assert(c.push(a.last()) =~= a);
        assert(d.push(b.last()) =~= b);
        assert(a[a.len() - 1].len() <= b[a.len() - 1].len());
    }
}

proof fn grown_spreads_no_more(entries: Seq<Seq<char>>, more: Seq<Seq<char>>)
    ensures
        spread(grown(entries, more)) <= spread(entries) + spread(more),
    decreases more.len(),
{
    if more.len() > 0 {
        let init = more.drop_last();
        grown_spreads_no_more(entries, init);
        spread_of_push(grown(entries, init), more.last());
        spread_of_push(init, more.last());
        assert(init.push(more.last()) =~= more);
    }
}

proof fn ready_spreads_no_more(entries: Seq<Seq<char>>)
    ensures
        spread(ready(entries)) <= spread(entries),
{
    if entries.len() > 0 && runs_into_delimiter(entries.last()) {
        let init = entries.drop_last();
        let closed = closed_off(entries.last());
        closing_off_cuts(entries.last());
        grown_spreads_no_more(init, seq![closed]);
        spread_of_push(init, entries.last());
        assert(init.push(entries.last()) =~= entries);
        assert(rendered(seq![closed]) == closed);
    }
}

proof fn pieces_spread_no_more(text: Seq<char>, followed: bool)
    ensures
        spread(entries_of(text, followed)) <= text.len() + 3,
{
    let pieces = entries_of(text, followed);
    assert forall|i: int| 0 <= i < pieces.len() implies (#[trigger] pieces[i]).len() <= parsed(
        text,
    )[i].len() by {
        closing_off_cuts(parsed(text)[i]);
    }
    shorter_entries_spread_less(pieces, parsed(text));
    rewriting_never_grows(text);
}

proof fn added_entries_fit(held: Seq<Seq<char>>, text: Seq<char>)
    ensures
        rendered(grown(ready(held), entries_of(text, false))).len() <= rendered(
            held.push(text),
        ).len(),
{
    let pieces = entries_of(text, false);
    ready_spreads_no_more(held);
    pieces_spread_no_more(text, false);
    grown_spreads_no_more(ready(held), pieces);
    spread_of_push(held, text);
}

proof fn replaced_entries_fit(held: Seq<Seq<char>>, i: int, text: Seq<char>, followed: bool)
    requires
        0 <= i < held.len(),
    ensures
        rendered(spliced(held, i, entries_of(text, followed))).len() <= rendered(
            held.update(i, text),
        ).len(),
{
    let pieces = entries_of(text, followed);
    let (front, back) = (held.take(i), held.skip(i + 1));
    pieces_spread_no_more(text, followed);
    spread_of_two(front, pieces);
    spread_of_two(front + pieces, back);
    spread_of_push(front, text);
    spread_of_two(front.push(text), back);
    assert(front.push(text) + back =~= held.update(i, text));
}

/// The cap is never breached: whatever is added, removed or replaced, and whether it is
/// refused or not, a store's file that was within its cap stays within it.
pub proof fn cap_is_never_breached(
    store: StoreView,
    files: Files,
    target: Target,
    text: Seq<char>,
    search: Seq<char>,
    scanned: Result<(), HitView>,
    now: u64,
    watched: Target,
)
    requires
        within_cap(store, files, watched),
    ensures
        within_cap(store, added(store, files, target, text, scanned, now).files, watched),
        within_cap(store, removed(store, files, target, search, now).files, watched),
        within_cap(
            store,
            replaced(store, files, target, search, text, scanned, now).files,
            watched,
        ),
{
    keys_differ(target, watched, now);
    keys_differ(watched, target, now);
    guard_leaves_stores(files, target, store.limit(target), now, watched);
    let entries = entries_in(files, target);
    added_entries_fit(entries, trim(text));
    matches_are_places(entries, search);
    match only_match(entries, search) {
        Ok(i) => {
            assert(matching(entries, search)[0] == i);
            rendered_len_bounds(entries, i);
            replaced_entries_fit(entries, i, trim(text), i < entries.len() - 1);
            if files.contains_key(key_of(target)) {
                rewriting_never_grows(files[key_of(target)]);
            } else {
                assert(entries.len() == 0);
            }
        },
        Err(_) => {},
    }
}

/// The entries of a store that is within its cap take up no more than the cap, together
/// and each.
pub proof fn entries_are_within_cap(store: StoreView, files: Files, target: Target, i: int)
    requires
        within_cap(store, files, target),
        0 <= i < entries_in(files, target).len(),
    ensures
        rendered(entries_in(files, target)).len() <= store.limit(target),
        entries_in(files, target)[i].len() <= store.limit(target),
{
    rewriting_never_grows(files[key_of(target)]);
    rendered_len_bounds(entries_in(files, target), i);
}

/// The two stores are apart: what is done to one leaves the entries of the other as they
/// were.
pub proof fn targets_are_isolated(
    store: StoreView,
    files: Files,
    target: Target,
    other: Target,
    text: Seq<char>,
    search: Seq<char>,
    scanned: Result<(), HitView>,
    now: u64,
)
    requires
        target != other,
    ensures
        entries_in(added(store, files, target, text, scanned, now).files, other) == entries_in(
            files,
            other,
        ),
        entries_in(removed(store, files, target, search, now).files, other) == entries_in(
            files,
            other,
        ),
        entries_in(
            replaced(store, files, target, search, text, scanned, now).files,
            other,
        ) == entries_in(files, other),
{
    keys_differ(target, other, now);
    guard_leaves_stores(files, target, store.limit(target), now, other);
}

/// A refused change changes nothing in either store. Where the file was edited by someone
/// else, it is left as it was, and a copy of it is kept beside it.
pub proof fn refusals_change_nothing(
    store: StoreView,
    files: Files,
    target: Target,
    text: Seq<char>,
    search: Seq<char>,
    scanned: Result<(), HitView>,
    now: u64,
    watched: Target,
)
    ensures
        ({
            let done = added(store, files, target, text, scanned, now);
            &&& done.result is Err ==> entries_in(done.files, watched) == entries_in(files, watched)
            &&& done.result matches Err(MemoryErrorView::DriftDetected { backup_key: key, .. })
                ==> done.files.contains_key(key) && done.files[key] == files[key_of(target)]
                && done.files[key_of(target)] == files[key_of(target)]
        }),
        ({
            let done = removed(store, files, target, search, now);
            done.result is Err ==> entries_in(done.files, watched) == entries_in(files, watched)
        }),
        ({
            let done = replaced(store, files, target, search, text, scanned, now);
            done.result is Err ==> entries_in(done.files, watched) == entries_in(files, watched)
        }),
{
    keys_differ(target, target, now);
    guard_leaves_stores(files, target, store.limit(target), now, watched);
}

/// What the scanner blocks is never kept.
pub proof fn blocked_texts_are_not_kept(
    store: StoreView,
    files: Files,
    target: Target,
    text: Seq<char>,
    search: Seq<char>,
    hit: HitView,
    now: u64,
)
    requires
        store.threat_scanning,
    ensures
        added(store, files, target, text, Err(hit), now).result is Err,
        added(store, files, target, text, Err(hit), now).files == files,
        replaced(store, files, target, search, text, Err(hit), now).result is Err,
        replaced(store, files, target, search, text, Err(hit), now).files == files,
{
}

proof fn parts_hold_no_more(part: Seq<char>, whole: Seq<char>, from: int, needle: Seq<char>)
    requires
        !contains(whole, needle),
        0 <= from <= whole.len(),
        part.len() <= whole.len() - from,
        part == whole.subrange(from, from + part.len()),
    ensures
        !contains(part, needle),
{
    contains_somewhere(part, needle);
    contains_somewhere(whole, needle);
    if contains(part, needle) {
        let i = choose|i: int| #[trigger] occurs_at(part, needle, i);
        assert(whole.subrange(from + i, from + i + needle.len()) =~= part.subrange(
            i,
            i + needle.len(),
        ));
        assert(occurs_at(whole, needle, from + i));
    }
}

proof fn pieces_are_clean(s: Seq<char>)
    ensures
        forall|i: int|
            0 <= i < split(s, ENTRY_DELIMITER@).len() ==> !contains(
                #[trigger] split(s, ENTRY_DELIMITER@)[i],
                ENTRY_DELIMITER@,
            ),
    decreases s.len(),
{
    delimiter_shape();
    let sep = ENTRY_DELIMITER@;
    let parts = split(s, sep);
    find_is_least(s, sep, 0);
    match find(s, sep) {
        Some(at) => {
            let front = s.take(at);
            let rest = s.skip(at + 3);
            pieces_are_clean(rest);
            contains_somewhere(front, sep);
            if contains(front, sep) {
                let i = choose|i: int| #[trigger] occurs_at(front, sep, i);
                assert(s.subrange(i, i + 3) =~= front.subrange(i, i + 3));
                assert(occurs_at(s, sep, i));
            }
            assert(parts == seq![front] + split(rest, sep));
            assert forall|i: int| 0 <= i < parts.len() implies !contains(
                #[trigger] parts[i],
                sep,
            ) by {
                if i > 0 {
                    assert(parts[i] == split(rest, sep)[i - 1]);
                }
            }
        },
        None => {
            assert(parts == seq![s]);
        },
    }
}

proof fn trimmed_piece_is_clean(piece: Seq<char>)
    requires
        !contains(piece, ENTRY_DELIMITER@),
    ensures
        !contains(trim(piece), ENTRY_DELIMITER@),
{
    trim_start_shape(piece);
    let front = trim_start(piece);
    trim_end_shape(front);
    let from = piece.len() - front.len();
    assert(trim(piece) =~= piece.subrange(from, from + trim(piece).len()));
    parts_hold_no_more(trim(piece), piece, from, ENTRY_DELIMITER@);
}

proof fn kept_are_clean(parts: Seq<Seq<char>>)
    requires
        forall|i: int|
            0 <= i < parts.len() ==> !contains(#[trigger] parts[i], ENTRY_DELIMITER@),
    ensures
        forall|i: int|
            0 <= i < kept_pieces(parts).len() ==> !contains(
                #[trigger] kept_pieces(parts)[i],
                ENTRY_DELIMITER@,
            ),
    decreases parts.len(),
{
    if parts.len() > 0 {
        let init = parts.drop_last();
        let before = kept_pieces(init);
        assert forall|i: int| 0 <= i < init.len() implies !contains(
            #[trigger] init[i],
            ENTRY_DELIMITER@,
        ) by {
            assert(init[i] == parts[i]);
        }
        kept_are_clean(init);
        assert(!contains(parts[parts.len() - 1], ENTRY_DELIMITER@));
        trimmed_piece_is_clean(parts.last());
        assert forall|i: int| 0 <= i < kept_pieces(parts).len() implies !contains(
            #[trigger] kept_pieces(parts)[i],
            ENTRY_DELIMITER@,
        ) by {
            if i < before.len() {
                assert(kept_pieces(parts)[i] == before[i]);
            }
        }
    }
}

/// No entry that is read holds a delimiter.
pub proof fn read_entries_hold_no_delimiter(raw: Seq<char>)
    ensures
        forall|i: int|
            0 <= i < parsed(raw).len() ==> !contains(#[trigger] parsed(raw)[i], ENTRY_DELIMITER@),
{
    pieces_are_clean(raw);
    kept_are_clean(split(raw, ENTRY_DELIMITER@));
}

proof fn closing_off_closes(entry: Seq<char>)
    requires
        trimmed_entry(entry),
        !contains(entry, ENTRY_DELIMITER@),
    ensures
        trimmed_entry(closed_off(entry)),
        closed_entry(closed_off(entry)),
        closed_off(entry).len() <= entry.len(),
    decreases entry.len(),
{
    delimiter_shape();
    let sep = ENTRY_DELIMITER@;
    trim_shape(entry);
    if runs_into_delimiter(entry) {
        let head = entry.take(entry.len() - 2);
        let shorter = trim_end(head);
        trim_end_shape(head);
        assert(is_white('\n'));
        assert(head.len() > 0);
        assert(head[0] == entry[0]);
        trim_end_keeps_start(head);
        assert(shorter[0] == entry[0]);
        trim_of_trimmed(shorter);
        assert(shorter =~= entry.subrange(0, shorter.len() as int));
        parts_hold_no_more(shorter, entry, 0, sep);
        closing_off_closes(shorter);
    } else {
        let s = entry.push('\n');
        contains_somewhere(s, sep);
        contains_somewhere(entry, sep);
        if contains(s, sep) {
            let i = choose|i: int| #[trigger] occurs_at(s, sep, i);
            assert(s.subrange(i, i + 3)[0] == s[i]);
            assert(s.subrange(i, i + 3)[1] == s[i + 1]);
            if i + 3 <= entry.len() {
                assert(entry.subrange(i, i + 3) =~= s.subrange(i, i + 3));
                assert(occurs_at(entry, sep, i));
            }
        }
    }
}

/// Whether entries come back as they are in whatever order they are written: each is
/// trimmed, and no delimiter stands in it or begins at its end.
pub open spec fn sound(entries: Seq<Seq<char>>) -> bool {
    forall|i: int|
        0 <= i < entries.len() ==> trimmed_entry(#[trigger] entries[i]) && closed_entry(entries[i])
}

proof fn clean_is_closed(entry: Seq<char>)
    requires
        trimmed_entry(entry),
        !contains(entry, ENTRY_DELIMITER@),
        !runs_into_delimiter(entry),
    ensures
        closed_entry(entry),
{
    closing_off_closes(entry);
}

proof fn closed_is_clean(entry: Seq<char>)
    requires
        closed_entry(entry),
    ensures
        !contains(entry, ENTRY_DELIMITER@),
{
    let whole = entry.push('\n');
    assert(entry =~= whole.subrange(0, entry.len() as int));
    parts_hold_no_more(entry, whole, 0, ENTRY_DELIMITER@);
}

proof fn sound_is_separable(entries: Seq<Seq<char>>)
    requires
        sound(entries),
    ensures
        separable(entries),
        forall|i: int| 0 <= i < entries.len() ==> trimmed_entry(#[trigger] entries[i]),
{
    if entries.len() > 0 {
        assert(closed_entry(entries[entries.len() - 1]));
        closed_is_clean(entries.last());
    }
}

proof fn kept_of_one(piece: Seq<char>)
    ensures
        kept_pieces(seq![piece]) == if trim(piece).len() == 0 {
            Seq::<Seq<char>>::empty()
        } else {
            seq![trim(piece)]
        },
{
    let one = seq![piece];
    assert(one.last() == piece);
    assert(kept_pieces(one.drop_last()) =~= Seq::empty());
    assert(Seq::<Seq<char>>::empty().push(trim(piece)) =~= seq![trim(piece)]);
}

proof fn kept_of_two(a: Seq<Seq<char>>, b: Seq<Seq<char>>)
    ensures
        kept_pieces(a + b) == kept_pieces(a) + kept_pieces(b),
    decreases b.len(),
{
    if b.len() == 0 {
        assert(a + b =~= a);
        assert(kept_pieces(a) + kept_pieces(b) =~= kept_pieces(a));
    } else {
        kept_of_two(a, b.drop_last());
        assert((a + b).drop_last() =~= a + b.drop_last());
        assert(kept_pieces(a + b) =~= kept_pieces(a) + kept_pieces(b));
    }
}

proof fn parsed_from_the_front(raw: Seq<char>, at: int)
    requires
        find(raw, ENTRY_DELIMITER@) == Some(at),
    ensures
        0 <= at,
        at + 3 <= raw.len(),
        raw == raw.take(at) + (ENTRY_DELIMITER@ + raw.skip(at + 3)),
        closed_entry(raw.take(at)),
        trim(raw.take(at)).len() == 0 ==> parsed(raw) == parsed(raw.skip(at + 3)),
        trim(raw.take(at)).len() > 0 ==> parsed(raw) == seq![trim(raw.take(at))] + parsed(
            raw.skip(at + 3),
        ),
{
    delimiter_shape();
    let sep = ENTRY_DELIMITER@;
    find_is_least(raw, sep, 0);
    let front = raw.take(at);
    let rest = raw.skip(at + 3);
    assert(raw.subrange(at, at + 3) == sep);
    assert(raw =~= front + (raw.subrange(at, at + 3) + rest));
    let s = front.push('\n');
    contains_somewhere(s, sep);
    if contains(s, sep) {
        let i = choose|i: int| #[trigger] occurs_at(s, sep, i);
        assert(raw[at] == raw.subrange(at, at + 3)[0]);
        assert(raw.subrange(i, i + 3) =~= s.subrange(i, i + 3));
        assert(occurs_at(raw, sep, i));
    }
    assert(split(raw, sep) == seq![front] + split(rest, sep));
    kept_of_two(seq![front], split(rest, sep));
    kept_of_one(front);
    if trim(front).len() == 0 {
        assert(kept_pieces(seq![front]) + parsed(rest) =~= parsed(rest));
    }
}

/// How long a file is that is written again: no longer than it was, trimmed; and where it is
/// as long, its entries can be told apart.
proof fn full_files_are_separable(raw: Seq<char>)
    ensures
        rendered(parsed(raw)).len() <= trim(raw).len(),
        rendered(parsed(raw)).len() == trim(raw).len() ==> forall|i: int|
            0 <= i < parsed(raw).len() - 1 ==> closed_entry(#[trigger] parsed(raw)[i]),
    decreases raw.len(),
{
    delimiter_shape();
    let sep = ENTRY_DELIMITER@;
    let entries = parsed(raw);
    match find(raw, sep) {
        None => {
            assert(split(raw, sep) == seq![raw]);
            kept_of_one(raw);
        },
        Some(at) => {
            let front = raw.take(at);
            let rest = raw.skip(at + 3);
            parsed_from_the_front(raw, at);
            full_files_are_separable(rest);
            trim_of_two(front, sep + rest);
            trim_of_two(sep, rest);
            let others = parsed(rest);
            if trim(front).len() > 0 {
                spread_of_two(seq![trim(front)], others);
                assert(rendered(seq![trim(front)]) == trim(front));
                if others.len() > 0 {
                    rendered_len_bounds(others, 0);
                    read_entries_are_trimmed(rest);
                    assert(trimmed_entry(others[0]));
                    trim_lengths(front);
                    trim_lengths(rest);
                    trim_start_of_two(front, sep + rest);
                    let head = trim_start(front);
                    assert(head + (sep + rest) =~= (head + sep) + rest);
                    trim_end_of_two(head + sep, rest);
                    assert(trim(raw).len() == head.len() + 3 + trim_end(rest).len());
                    if rendered(entries).len() == trim(raw).len() {
                        assert(trim(front) == head);
                        trim_start_shape(front);
                        let from = front.len() - head.len();
                        let whole = front.push('\n');
                        assert(head.push('\n') =~= whole.subrange(from, from + head.len() + 1));
                        parts_hold_no_more(head.push('\n'), whole, from, sep);
                        assert forall|i: int| 0 <= i < entries.len() - 1 implies closed_entry(
                            #[trigger] entries[i],
                        ) by {
                            if i > 0 {
                                assert(entries[i] == others[i - 1]);
                            }
                        }
                    }
                }
            }
        },
    }
}

/// The entries of a file that was not changed by someone else can be told apart.
pub proof fn undrifted_entries_are_separable(raw: Seq<char>, limit: nat)
    requires
        !drifted(raw, limit),
    ensures
        separable(parsed(raw)),
        forall|i: int| 0 <= i < parsed(raw).len() ==> trimmed_entry(#[trigger] parsed(raw)[i]),
{
    let entries = parsed(raw);
    full_files_are_separable(raw);
    read_entries_are_trimmed(raw);
    read_entries_hold_no_delimiter(raw);
    if entries.len() > 0 {
        rendered_len_bounds(entries, 0);
        assert(trimmed_entry(entries[0]));
        assert(!contains(entries[entries.len() - 1], ENTRY_DELIMITER@));
    }
}

proof fn held_entries_are_separable(files: Files, target: Target, limit: nat, now: u64)
    requires
        guarded(files, target, limit, now).result is Ok,
    ensures
        separable(entries_in(files, target)),
        forall|i: int|
            0 <= i < entries_in(files, target).len() ==> trimmed_entry(
                #[trigger] entries_in(files, target)[i],
            ),
{
    if files.contains_key(key_of(target)) {
        undrifted_entries_are_separable(files[key_of(target)], limit);
    }
}

/// The entries that any text comes to can be told apart, and where others follow, from those
/// too.
pub proof fn entries_of_texts_are_separable(text: Seq<char>, followed: bool)
    ensures
        separable(entries_of(text, followed)),
        forall|i: int|
            0 <= i < entries_of(text, followed).len() ==> trimmed_entry(
                #[trigger] entries_of(text, followed)[i],
            ),
        followed ==> sound(entries_of(text, followed)),
{
    read_entries_are_trimmed(text);
    read_entries_hold_no_delimiter(text);
    let entries = entries_of(text, followed);
    assert forall|i: int| 0 <= i < entries.len() implies trimmed_entry(#[trigger] entries[i])
        && !contains(entries[i], ENTRY_DELIMITER@) && (followed || i < entries.len() - 1
        ==> closed_entry(entries[i])) by {
        assert(trimmed_entry(parsed(text)[i]));
        closing_off_closes(parsed(text)[i]);
        closed_is_clean(closed_off(parsed(text)[i]));
    }
    if entries.len() > 0 {
        assert(!contains(entries[entries.len() - 1], ENTRY_DELIMITER@));
    }
}

/// A text without delimiters comes to one entry, the text itself; where others follow, as
/// long as no delimiter begins at its end.
pub proof fn texts_without_delimiters_are_one_entry(text: Seq<char>, followed: bool)
    requires
        trim(text).len() > 0,
        !contains(trim(text), ENTRY_DELIMITER@),
        followed ==> !runs_into_delimiter(trim(text)),
    ensures
        entries_of(trim(text), followed) == seq![trim(text)],
{
    let s = trim(text);
    trim_is_idempotent(text);
    assert(split(s, ENTRY_DELIMITER@) == seq![s]);
    kept_of_one(s);
    assert(entries_of(s, followed) =~= seq![s]);
}

proof fn grown_facts(entries: Seq<Seq<char>>, more: Seq<Seq<char>>)
    ensures
        grown(entries, more).len() >= entries.len(),
        grown(entries, more).take(entries.len() as int) == entries,
        entries.no_duplicates() ==> grown(entries, more).no_duplicates(),
        hold_all(grown(entries, more), more),
    decreases more.len(),
{
    let all = grown(entries, more);
    if more.len() == 0 {
        assert(all.take(entries.len() as int) =~= entries);
    } else {
        let init = more.drop_last();
        let last = more.last();
        let before = grown(entries, init);
        grown_facts(entries, init);
        assert forall|i: int| 0 <= i < more.len() implies all.contains(#[trigger] more[i]) by {
            if i < init.len() {
                assert(before.contains(init[i]));
                let k = choose|k: int| 0 <= k < before.len() && before[k] == init[i];
                assert(all[k] == more[i]);
            } else if !before.contains(last) {
                assert(all[before.len() as int] == last);
            }
        }
        if !before.contains(last) {
            assert(all == before.push(last));
            assert(all.take(entries.len() as int) =~= before.take(entries.len() as int));
            if entries.no_duplicates() {
                assert forall|i: int, j: int|
                    0 <= i < all.len() && 0 <= j < all.len() && i != j implies all[i]
                    != all[j] by {
                    if i < before.len() && j < before.len() {
                        assert(before[i] != before[j]);
                    }
                }
            }
        }
    }
}

proof fn grown_is_sound(entries: Seq<Seq<char>>, more: Seq<Seq<char>>)
    requires
        sound(entries),
        sound(more),
    ensures
        sound(grown(entries, more)),
    decreases more.len(),
{
    if more.len() > 0 {
        let init = more.drop_last();
        let before = grown(entries, init);
        let all = grown(entries, more);
        assert forall|i: int| 0 <= i < init.len() implies trimmed_entry(#[trigger] init[i])
            && closed_entry(init[i]) by {
            assert(init[i] == more[i]);
        }
        grown_is_sound(entries, init);
        assert(trimmed_entry(more[more.len() - 1]) && closed_entry(more[more.len() - 1]));
        assert forall|i: int| 0 <= i < all.len() implies trimmed_entry(#[trigger] all[i])
            && closed_entry(all[i]) by {
            if i < before.len() {
                assert(all[i] == before[i]);
            }
        }
    }
}

proof fn init_is_sound(entries: Seq<Seq<char>>)
    requires
        entries.len() > 0,
        separable(entries),
        forall|i: int| 0 <= i < entries.len() ==> trimmed_entry(#[trigger] entries[i]),
    ensures
        sound(entries.drop_last()),
{
    let init = entries.drop_last();
    assert forall|i: int| 0 <= i < init.len() implies trimmed_entry(#[trigger] init[i])
        && closed_entry(init[i]) by {
        assert(init[i] == entries[i]);
    }
}

proof fn ready_is_sound(entries: Seq<Seq<char>>)
    requires
        separable(entries),
        forall|i: int| 0 <= i < entries.len() ==> trimmed_entry(#[trigger] entries[i]),
    ensures
        sound(ready(entries)),
        entries.no_duplicates() ==> ready(entries).no_duplicates(),
{
    if entries.len() > 0 {
        let init = entries.drop_last();
        let last = entries.last();
        assert(trimmed_entry(entries[entries.len() - 1]));
        init_is_sound(entries);
        if runs_into_delimiter(last) {
            let more = seq![closed_off(last)];
            closing_off_closes(last);
            grown_is_sound(init, more);
            grown_facts(init, more);
        } else {
            clean_is_closed(last);
            assert forall|i: int| 0 <= i < entries.len() implies trimmed_entry(
                #[trigger] entries[i],
            ) && closed_entry(entries[i]) by {
                if i < init.len() {
                    assert(entries[i] == init[i]);
                }
            }
        }
    }
}

proof fn grown_is_separable(entries: Seq<Seq<char>>, more: Seq<Seq<char>>)
    requires
        sound(entries),
        separable(more),
        forall|i: int| 0 <= i < more.len() ==> trimmed_entry(#[trigger] more[i]),
    ensures
        separable(grown(entries, more)),
        forall|i: int|
            0 <= i < grown(entries, more).len() ==> trimmed_entry(
                #[trigger] grown(entries, more)[i],
            ),
{
    let all = grown(entries, more);
    if more.len() == 0 {
        sound_is_separable(entries);
    } else {
        let init = more.drop_last();
        let before = grown(entries, init);
        init_is_sound(more);
        grown_is_sound(entries, init);
        sound_is_separable(before);
        assert(trimmed_entry(more[more.len() - 1]));
        if !before.contains(more.last()) {
            assert forall|i: int| 0 <= i < all.len() implies trimmed_entry(#[trigger] all[i]) && (i
                < all.len() - 1 ==> closed_entry(all[i])) by {
                if i < before.len() {
                    assert(all[i] == before[i]);
                }
            }
        }
    }
}

/// What was added is read back: the entries that the text comes to and that were missing
/// stand behind the others, and where none was missing nothing has changed. Entries
/// without repetition stay so.
pub proof fn added_entries_are_read_back(
    store: StoreView,
    files: Files,
    target: Target,
    text: Seq<char>,
    scanned: Result<(), HitView>,
    now: u64,
)
    requires
        added(store, files, target, text, scanned, now).result is Ok,
    ensures
        ({
            let held = entries_in(files, target);
            let pieces = entries_of(trim(text), false);
            let done = added(store, files, target, text, scanned, now);
            let after = entries_in(done.files, target);
            &&& hold_all(held, pieces) ==> done.files == files
            &&& !hold_all(held, pieces) ==> after == grown(ready(held), pieces) && after.take(
                ready(held).len() as int,
            ) == ready(held)
            &&& done.result == Ok::<nat, MemoryErrorView>(after.len())
            &&& hold_all(after, pieces)
            &&& held.no_duplicates() ==> after.no_duplicates()
        }),
{
    let held = entries_in(files, target);
    let pieces = entries_of(trim(text), false);
    held_entries_are_separable(files, target, store.limit(target), now);
    entries_of_texts_are_separable(trim(text), false);
    ready_is_sound(held);
    grown_is_separable(ready(held), pieces);
    grown_facts(ready(held), pieces);
    entries_round_trip(grown(ready(held), pieces));
}

/// Where no delimiter begins at the end of the last entry, a text without delimiters is put
/// behind the others unless it is there already, and the others stay as they were.
pub proof fn adding_keeps_the_others(
    store: StoreView,
    files: Files,
    target: Target,
    text: Seq<char>,
    scanned: Result<(), HitView>,
    now: u64,
)
    requires
        added(store, files, target, text, scanned, now).result is Ok,
        !contains(trim(text), ENTRY_DELIMITER@),
        entries_in(files, target).len() > 0 ==> !runs_into_delimiter(
            entries_in(files, target).last(),
        ),
    ensures
        ({
            let held = entries_in(files, target);
            let after = entries_in(
                added(store, files, target, text, scanned, now).files,
                target,
            );
            after == if held.contains(trim(text)) {
                held
            } else {
                held.push(trim(text))
            }
        }),
{
    let held = entries_in(files, target);
    added_entries_are_read_back(store, files, target, text, scanned, now);
    texts_without_delimiters_are_one_entry(text, false);
    let pieces = seq![trim(text)];
    assert(pieces[0] == trim(text));
    assert(pieces.drop_last() =~= Seq::empty());
    assert(grown(held, pieces.drop_last()) == held);
}

proof fn not_drifted(entries: Seq<Seq<char>>, limit: nat)
    requires
        entries.len() > 0,
        separable(entries),
        forall|i: int| 0 <= i < entries.len() ==> trimmed_entry(#[trigger] entries[i]),
        rendered(entries).len() <= limit,
    ensures
        !drifted(rendered(entries), limit),
{
    entries_round_trip(entries);
    rendered_ends(entries);
    trim_of_trimmed(rendered(entries));
    assert forall|i: int| 0 <= i < entries.len() implies (#[trigger] entries[i]).len() <= limit by {
        rendered_len_bounds(entries, i);
    }
}

proof fn rendered_ends(entries: Seq<Seq<char>>)
    requires
        entries.len() > 0,
        forall|i: int| 0 <= i < entries.len() ==> trimmed_entry(#[trigger] entries[i]),
    ensures
        rendered(entries).len() > 0,
        !is_white(rendered(entries)[0]),
        !is_white(rendered(entries).last()),
    decreases entries.len(),
{
    let last = entries.last();
    assert(trimmed_entry(entries[entries.len() - 1]));
    trim_shape(last);
    if entries.len() > 1 {
        let init = entries.drop_last();
        assert forall|i: int| 0 <= i < init.len() implies trimmed_entry(#[trigger] init[i]) by {
            assert(init[i] == entries[i]);
        }
        rendered_ends(init);
        assert(rendered(entries)[0] == rendered(init)[0]);
        assert(rendered(entries).last() == last.last());
    }
}

/// Adding is idempotent: adding the same text again succeeds, counts the same entries and
/// changes nothing.
pub proof fn adding_is_idempotent(
    store: StoreView,
    files: Files,
    target: Target,
    text: Seq<char>,
    scanned: Result<(), HitView>,
    now: u64,
    later: u64,
)
    requires
        added(store, files, target, text, scanned, now).result is Ok,
    ensures
        ({
            let once = added(store, files, target, text, scanned, now);
            let twice = added(store, once.files, target, text, scanned, later);
            twice.result == once.result && twice.files == once.files
        }),
{
    let held = entries_in(files, target);
    let pieces = entries_of(trim(text), false);
    let all = grown(ready(held), pieces);
    added_entries_are_read_back(store, files, target, text, scanned, now);
    if !hold_all(held, pieces) {
        held_entries_are_separable(files, target, store.limit(target), now);
        entries_of_texts_are_separable(trim(text), false);
        ready_is_sound(held);
        grown_is_separable(ready(held), pieces);
        added_entries_fit(held, trim(text));
        texts_come_to_something(text, false);
        assert(all.contains(pieces[0]));
        not_drifted(all, store.limit(target));
    }
}

/// What replaced an entry is read back: the entries that the replacement comes to stand in
/// its place, and the others stay as they were.
pub proof fn replacements_are_read_back(
    store: StoreView,
    files: Files,
    target: Target,
    search: Seq<char>,
    text: Seq<char>,
    scanned: Result<(), HitView>,
    now: u64,
)
    requires
        replaced(store, files, target, search, text, scanned, now).result is Ok,
    ensures
        ({
            let before = entries_in(files, target);
            let after = entries_in(
                replaced(store, files, target, search, text, scanned, now).files,
                target,
            );
            match only_match(before, search) {
                Ok(i) => after == before.take(i) + entries_of(trim(text), i < before.len() - 1)
                    + before.skip(i + 1),
                Err(_) => false,
            }
        }),
{
    let before = entries_in(files, target);
    matches_are_places(before, search);
    held_entries_are_separable(files, target, store.limit(target), now);
    match only_match(before, search) {
        Ok(i) => {
            assert(matching(before, search)[0] == i);
            let followed = i < before.len() - 1;
            let others = entries_of(trim(text), followed);
            let all = spliced(before, i, others);
            entries_of_texts_are_separable(trim(text), followed);
            texts_come_to_something(text, followed);
            assert forall|k: int| 0 <= k < all.len() implies trimmed_entry(#[trigger] all[k]) && (k
                < all.len() - 1 ==> closed_entry(all[k])) by {
                if k < i {
                    assert(all[k] == before[k]);
                } else if k < i + others.len() {
                    assert(all[k] == others[k - i]);
                } else {
                    assert(all[k] == before[k - others.len() + 1]);
                }
            }
            if followed {
                assert(all.last() == before.last());
            } else {
                assert(all.last() == others.last());
            }
            entries_round_trip(all);
        },
        Err(_) => {},
    }
}

/// Replacing an entry by a text without delimiters changes that entry alone.
pub proof fn replacing_changes_one_entry(
    store: StoreView,
    files: Files,
    target: Target,
    search: Seq<char>,
    text: Seq<char>,
    scanned: Result<(), HitView>,
    now: u64,
)
    requires
        replaced(store, files, target, search, text, scanned, now).result is Ok,
        !contains(trim(text), ENTRY_DELIMITER@),
        !runs_into_delimiter(trim(text)),
    ensures
        ({
            let before = entries_in(files, target);
            let after = entries_in(
                replaced(store, files, target, search, text, scanned, now).files,
                target,
            );
            match only_match(before, search) {
                Ok(i) => after == before.update(i, trim(text)),
                Err(_) => false,
            }
        }),
{
    let before = entries_in(files, target);
    matches_are_places(before, search);
    replacements_are_read_back(store, files, target, search, text, scanned, now);
    match only_match(before, search) {
        Ok(i) => {
            assert(matching(before, search)[0] == i);
            texts_without_delimiters_are_one_entry(text, i < before.len() - 1);
            assert(before.take(i) + seq![trim(text)] + before.skip(i + 1) =~= before.update(
                i,
                trim(text),
            ));
        },
        Err(_) => {},
    }
}

/// Removing an entry takes out that entry alone.
pub proof fn removing_takes_out_one_entry(
    store: StoreView,
    files: Files,
    target: Target,
    search: Seq<char>,
    now: u64,
)
    requires
        removed(store, files, target, search, now).result is Ok,
    ensures
        ({
            let before = entries_in(files, target);
            let after = entries_in(removed(store, files, target, search, now).files, target);
            match only_match(before, search) {
                Ok(i) => after == before.remove(i),
                Err(_) => false,
            }
        }),
{
    let before = entries_in(files, target);
    matches_are_places(before, search);
    held_entries_are_separable(files, target, store.limit(target), now);
    match only_match(before, search) {
        Ok(i) => {
            assert(matching(before, search)[0] == i);
            let all = before.remove(i);
            assert forall|k: int| 0 <= k < all.len() implies trimmed_entry(#[trigger] all[k]) && (k
                < all.len() - 1 ==> closed_entry(all[k])) by {
                if k < i {
                    assert(all[k] == before[k]);
                } else {
                    assert(all[k] == before[k + 1]);
                }
            }
            if all.len() > 0 {
                if i == before.len() - 1 {
                    assert(all.last() == before[i - 1]);
                    closed_is_clean(all.last());
                } else {
                    assert(all.last() == before.last());
                }
            }
            entries_round_trip(all);
        },
        Err(_) => {},
    }
}

proof fn only_the_last_matches(entries: Seq<Seq<char>>, search: Seq<char>)
    requires
        forall|i: int| 0 <= i < entries.len() ==> !contains(#[trigger] entries[i], search),
    ensures
        matching(entries, search) == Seq::<int>::empty(),
    decreases entries.len(),
{
    if entries.len() > 0 {
        let init = entries.drop_last();
        assert forall|i: int| 0 <= i < init.len() implies !contains(#[trigger] init[i], search) by {
            assert(init[i] == entries[i]);
        }
        only_the_last_matches(init, search);
        assert(!contains(entries[entries.len() - 1], search));
    }
}

/// What comes of removing several entries one by one, from the last to the first, each by
/// its own text.
pub open spec fn taken_back(
    store: StoreView,
    files: Files,
    target: Target,
    entries: Seq<Seq<char>>,
    now: u64,
) -> Outcome<()>
    decreases entries.len(),
{
    if entries.len() == 0 {
        Outcome { result: Ok(()), files }
    } else {
        let done = removed(store, files, target, entries.last(), now);
        match done.result {
            Err(error) => Outcome { result: Err(error), files: done.files },
            Ok(_) => taken_back(store, done.files, target, entries.drop_last(), now),
        }
    }
}

/// Whether none of the entries holds the text.
pub open spec fn none_holds(entries: Seq<Seq<char>>, text: Seq<char>) -> bool {
    forall|i: int| 0 <= i < entries.len() ==> !contains(#[trigger] entries[i], text)
}

proof fn shorter_is_shorter(entries: Seq<Seq<char>>)
    requires
        entries.len() > 0,
    ensures
        rendered(entries.drop_last()).len() <= rendered(entries).len(),
{
    rendered_push_len(entries.drop_last(), entries.last());
    assert(entries.drop_last().push(entries.last()) =~= entries);
}

proof fn taking_back_from(
    store: StoreView,
    files: Files,
    target: Target,
    held: Seq<Seq<char>>,
    pieces: Seq<Seq<char>>,
    now: u64,
)
    requires
        files.contains_key(key_of(target)),
        files[key_of(target)] == rendered(held + pieces),
        rendered(held + pieces).len() <= store.limit(target),
        sound(held),
        separable(pieces),
        forall|i: int| 0 <= i < pieces.len() ==> trimmed_entry(#[trigger] pieces[i]),
        forall|i: int| 0 <= i < pieces.len() ==> none_holds(held, #[trigger] pieces[i]),
        forall|i: int, j: int|
            0 <= i < j < pieces.len() ==> !contains(#[trigger] pieces[i], #[trigger] pieces[j]),
    ensures
        taken_back(store, files, target, pieces, now).result is Ok,
        entries_in(taken_back(store, files, target, pieces, now).files, target) == held,
    decreases pieces.len(),
{
    let all = held + pieces;
    if pieces.len() == 0 {
        assert(all =~= held);
        sound_is_separable(held);
        entries_round_trip(held);
    } else {
        let init = pieces.drop_last();
        let last = pieces.last();
        let n = pieces.len() - 1;
        assert forall|i: int| 0 <= i < all.len() implies trimmed_entry(#[trigger] all[i]) && (i
            < all.len() - 1 ==> closed_entry(all[i])) by {
            if i < held.len() {
                assert(all[i] == held[i]);
            } else {
                assert(all[i] == pieces[i - held.len()]);
            }
        }
        assert(all.last() == last);
        entries_round_trip(all);
        not_drifted(all, store.limit(target));
        let fewer = held + init;
        assert(all.drop_last() =~= fewer);
        assert(none_holds(held, pieces[n]));
        assert forall|i: int| 0 <= i < fewer.len() implies !contains(#[trigger] fewer[i], last) by {
            if i < held.len() {
                assert(fewer[i] == held[i]);
            } else {
                assert(fewer[i] == pieces[i - held.len()]);
                assert(!contains(pieces[i - held.len()], pieces[n]));
            }
        }
        only_the_last_matches(fewer, last);
        contains_itself(last);
        assert(matching(all, last) == matching(fewer, last).push(all.len() - 1));
        assert(trimmed_entry(pieces[n]));
        assert(all.remove(all.len() - 1) =~= fewer);
        shorter_is_shorter(all);
        let done = removed(store, files, target, last, now);
        assert(done.result == Ok::<Seq<char>, MemoryErrorView>(last));
        init_is_sound(pieces);
        sound_is_separable(init);
        assert forall|i: int| 0 <= i < init.len() implies none_holds(held, #[trigger] init[i]) by {
            assert(init[i] == pieces[i]);
        }
        assert forall|i: int, j: int| 0 <= i < j < init.len() implies !contains(
            #[trigger] init[i],
            #[trigger] init[j],
        ) by {
            assert(init[i] == pieces[i] && init[j] == pieces[j]);
        }
        taking_back_from(store, done.files, target, held, init, now);
    }
}

proof fn new_pieces_are_all_put_behind(held: Seq<Seq<char>>, pieces: Seq<Seq<char>>)
    requires
        forall|i: int| 0 <= i < pieces.len() ==> none_holds(held, #[trigger] pieces[i]),
        forall|i: int, j: int|
            0 <= i < j < pieces.len() ==> !contains(#[trigger] pieces[i], #[trigger] pieces[j]),
    ensures
        grown(held, pieces) == held + pieces,
    decreases pieces.len(),
{
    if pieces.len() == 0 {
        assert(held + pieces =~= held);
    } else {
        let init = pieces.drop_last();
        let n = pieces.len() - 1;
        assert forall|i: int| 0 <= i < init.len() implies none_holds(held, #[trigger] init[i]) by {
            assert(init[i] == pieces[i]);
        }
        assert forall|i: int, j: int| 0 <= i < j < init.len() implies !contains(
            #[trigger] init[i],
            #[trigger] init[j],
        ) by {
            assert(init[i] == pieces[i] && init[j] == pieces[j]);
        }
        new_pieces_are_all_put_behind(held, init);
        let before = held + init;
        contains_itself(pieces[n]);
        assert(none_holds(held, pieces[n]));
        if before.contains(pieces[n]) {
            let k = choose|k: int| 0 <= k < before.len() && before[k] == pieces[n];
            if k < held.len() {
                assert(!contains(held[k], pieces[n]));
            } else {
                assert(before[k] == pieces[k - held.len()]);
                assert(!contains(pieces[k - held.len()], pieces[n]));
            }
        }
        assert(before.push(pieces[n]) =~= held + pieces);
    }
}

proof fn ready_holds_no_more(entries: Seq<Seq<char>>, text: Seq<char>)
    requires
        none_holds(entries, text),
    ensures
        none_holds(ready(entries), text),
{
    if entries.len() > 0 && runs_into_delimiter(entries.last()) {
        let init = entries.drop_last();
        let last = entries[entries.len() - 1];
        let closed = closed_off(last);
        let all = ready(entries);
        closing_off_cuts(last);
        assert(closed =~= last.subrange(0, closed.len() as int));
        parts_hold_no_more(closed, last, 0, text);
        assert(seq![closed].drop_last() =~= Seq::empty());
        assert(grown(init, seq![closed].drop_last()) == init);
        assert forall|i: int| 0 <= i < all.len() implies !contains(#[trigger] all[i], text) by {
            if i < init.len() {
                assert(all[i] == entries[i]);
            }
        }
    }
}

/// Removing undoes adding: where the entries that a text comes to were new, and none of
/// them is held by another entry, they are taken out again by their own texts, and the
/// store holds what it held before, ready for more.
pub proof fn removing_undoes_adding(
    store: StoreView,
    files: Files,
    target: Target,
    text: Seq<char>,
    scanned: Result<(), HitView>,
    now: u64,
    later: u64,
)
    requires
        added(store, files, target, text, scanned, now).result is Ok,
        ({
            let pieces = entries_of(trim(text), false);
            &&& forall|i: int|
                0 <= i < pieces.len() ==> none_holds(
                    entries_in(files, target),
                    #[trigger] pieces[i],
                )
            &&& forall|i: int, j: int|
                0 <= i < j < pieces.len() ==> !contains(#[trigger] pieces[i], #[trigger] pieces[j])
        }),
    ensures
        ({
            let once = added(store, files, target, text, scanned, now);
            let undone = taken_back(
                store,
                once.files,
                target,
                entries_of(trim(text), false),
                later,
            );
            &&& undone.result is Ok
            &&& entries_in(undone.files, target) == ready(entries_in(files, target))
        }),
{
    let held = entries_in(files, target);
    let pieces = entries_of(trim(text), false);
    held_entries_are_separable(files, target, store.limit(target), now);
    entries_of_texts_are_separable(trim(text), false);
    ready_is_sound(held);
    assert forall|i: int| 0 <= i < pieces.len() implies none_holds(
        ready(held),
        #[trigger] pieces[i],
    ) by {
        ready_holds_no_more(held, pieces[i]);
    }
    new_pieces_are_all_put_behind(ready(held), pieces);
    texts_come_to_something(text, false);
    if hold_all(held, pieces) {
        assert(held.contains(pieces[0]));
        let k = choose|k: int| 0 <= k < held.len() && held[k] == pieces[0];
        contains_itself(pieces[0]);
        assert(none_holds(held, pieces[0]));
    }
    added_entries_fit(held, trim(text));
    let once = added(store, files, target, text, scanned, now);
    taking_back_from(store, once.files, target, ready(held), pieces, later);
}

proof fn texts_come_to_something(text: Seq<char>, followed: bool)
    requires
        trim(text).len() > 0,
    ensures
        entries_of(trim(text), followed).len() > 0,
{
    delimiter_shape();
    let s = trim(text);
    let sep = ENTRY_DELIMITER@;
    trim_shape(text);
    find_is_least(s, sep, 0);
    split_joins_back(s, sep);
    let parts = split(s, sep);
    let first = parts[0];
    match find(s, sep) {
        Some(at) => {
            assert(parts == seq![s.take(at)] + split(s.skip(at + 3), sep));
            assert(is_white('\n'));
            if at == 0 {
                assert(s.subrange(0, 3)[0] == s[0]);
            }
            assert(first == s.take(at));
        },
        None => {
            assert(parts == seq![s]);
        },
    }
    assert(first.len() > 0 && first[0] == s[0]);
    trim_end_keeps_start(first);
    assert(trim(first).len() > 0);
    first_piece_is_kept(parts);
}

proof fn first_piece_is_kept(parts: Seq<Seq<char>>)
    requires
        parts.len() > 0,
        trim(parts[0]).len() > 0,
    ensures
        kept_pieces(parts).len() > 0,
    decreases parts.len(),
{
    if parts.len() > 1 {
        assert(parts.drop_last()[0] == parts[0]);
        first_piece_is_kept(parts.drop_last());
    }
}

} // verus!
