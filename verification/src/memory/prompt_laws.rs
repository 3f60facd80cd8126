//! What the agent is shown of its memory, and what it is answered.
use vstd::prelude::*;

use crate::json::JsonView;
use crate::memory::error::MemoryErrorView;
use crate::memory::files::Files;
use crate::memory::laws::{entries_round_trip, separable, trimmed_entry};
use crate::memory::manager::{fenced, recalled, said_blocks};
use crate::memory::provider::prompt_section;
use crate::memory::store::{
    SEPARATOR, StoreView, Target, added, block_text, entries_in, entries_of, hold_all, key_of,
    matching, only_match, parsed, removed, rendered, replaced, scan_of, target_named,
};
use crate::memory::threats::HitView;
use crate::memory::tool::{call_outcome, excerpt, numbered, read_answer};
use crate::text::{contains, decimal, join, occurs_at, starts_with, trim};
use crate::text_laws::{contains_somewhere, holds_within};

verus! {

/// What stands before the entries in a block: between two rules, which store it is, how full
/// it is in percent, how many characters it takes up and how many it may.
pub open spec fn heading(target: Target, full: nat, count: nat, limit: nat) -> Seq<char> {
    let name = match target {
        Target::Memory => "MEMORY (your personal notes) ["@,
        Target::User => "USER PROFILE (who the user is) ["@,
    };
    let header = name + decimal(full) + "% — "@ + decimal(count) + "/"@ + decimal(limit)
        + " chars]"@;
    SEPARATOR@ + "\n"@ + header + "\n"@ + SEPARATOR@ + "\n"@
}

/// The rule over and under a header is one line of one sign.
pub proof fn rules_are_rules()
    ensures
        SEPARATOR@.len() == 46,
        forall|i: int| 0 <= i < SEPARATOR@.len() ==> SEPARATOR@[i] == '═',
{
    reveal_strlit("══════════════════════════════════════════════");
}

/// A block shows every entry of its store: behind its heading stands what the store takes up,
/// which reads back as the store's entries, and the count in the heading is how much that is.
/// The percentage never passes a hundred. A store without entries has no block.
pub proof fn blocks_show_every_entry(target: Target, entries: Seq<Seq<char>>, limit: nat)
    requires
        separable(entries),
        forall|i: int| 0 <= i < entries.len() ==> trimmed_entry(#[trigger] entries[i]),
    ensures
        ({
            let block = block_text(target, entries, limit);
            let count = rendered(entries).len();
            let full = if limit == 0 {
                0
            } else if count >= limit {
                100
            } else {
                count * 100 / limit
            };
            let head = heading(target, full, count, limit);
            let body = block.skip(head.len() as int);
            &&& entries.len() == 0 ==> block.len() == 0
            &&& entries.len() > 0 ==> starts_with(block, head) && parsed(body) == entries
                && body.len() == count
        }),
{
    let block = block_text(target, entries, limit);
    let count = rendered(entries).len();
    let full = if limit == 0 {
        0
    } else if count >= limit {
        100
    } else {
        count * 100 / limit
    };
    if limit > 0 {
        assert(count >= limit ==> count * 100 / limit >= 100) by (nonlinear_arith)
            requires
                limit > 0,
        ;
        assert(count < limit ==> count * 100 / limit <= 100) by (nonlinear_arith)
            requires
                limit > 0,
        ;
    }
    let head = heading(target, full, count, limit);
    if entries.len() > 0 {
        assert(block =~= head + rendered(entries));
        assert(block.take(head.len() as int) =~= head);
        assert(block.skip(head.len() as int) =~= rendered(entries));
        entries_round_trip(entries);
    }
}

/// A part of a joined text stands in it.
pub proof fn joins_hold_their_parts(parts: Seq<Seq<char>>, sep: Seq<char>, i: int)
    requires
        0 <= i < parts.len(),
    ensures
        contains(join(parts, sep), parts[i]),
    decreases parts.len(),
{
    let none = Seq::<char>::empty();
    if parts.len() == 1 {
        holds_within(none, parts[0], none);
        assert(none + parts[0] + none =~= parts[0]);
    } else {
        let init = parts.drop_last();
        let before = join(init, sep);
        if i < init.len() {
            joins_hold_their_parts(init, sep, i);
            contains_somewhere(before, init[i]);
            let k = choose|k: int| #[trigger] occurs_at(before, init[i], k);
            let whole = join(parts, sep);
            assert(whole.subrange(k, k + parts[i].len()) =~= before.subrange(
                k,
                k + parts[i].len(),
            ));
            assert(occurs_at(whole, parts[i], k));
            contains_somewhere(whole, parts[i]);
        } else {
            holds_within(before + sep, parts.last(), none);
            assert(before + sep + parts.last() + none =~= join(parts, sep));
        }
    }
}

/// Whatever a store's file holds, each entry that is read of it stands in its block.
pub proof fn blocks_hold_each_entry(target: Target, entries: Seq<Seq<char>>, limit: nat, i: int)
    requires
        0 <= i < entries.len(),
    ensures
        contains(block_text(target, entries, limit), entries[i]),
{
    let body = rendered(entries);
    let block = block_text(target, entries, limit);
    joins_hold_their_parts(entries, "\n§\n"@, i);
    contains_somewhere(body, entries[i]);
    let k = choose|k: int| #[trigger] occurs_at(body, entries[i], k);
    let n = block.len() - body.len();
    assert(block.skip(n) =~= body);
    assert(block.subrange(n + k, n + k + entries[i].len()) =~= body.subrange(
        k,
        k + entries[i].len(),
    ));
    assert(occurs_at(block, entries[i], n + k));
    contains_somewhere(block, entries[i]);
}

/// The section of the system prompt shows each store that is switched on and holds anything,
/// the notes before the profile and a blank line between the two, and nothing else.
pub proof fn sections_show_what_is_switched_on(
    store: StoreView,
    files: Files,
    memory_on: bool,
    user_on: bool,
)
    ensures
        ({
            let notes = block_text(
                Target::Memory,
                entries_in(files, Target::Memory),
                store.memory_limit,
            );
            let profile = block_text(
                Target::User,
                entries_in(files, Target::User),
                store.user_limit,
            );
            let with_notes = memory_on && entries_in(files, Target::Memory).len() > 0;
            let with_profile = user_on && entries_in(files, Target::User).len() > 0;
            prompt_section(store, files, memory_on, user_on) == if with_notes && with_profile {
                notes + "\n\n"@ + profile
            } else if with_notes {
                notes
            } else if with_profile {
                profile
            } else {
                Seq::empty()
            }
        }),
{
    rules_are_rules();
    let notes = block_text(Target::Memory, entries_in(files, Target::Memory), store.memory_limit);
    let profile = block_text(Target::User, entries_in(files, Target::User), store.user_limit);
    let none = Seq::<Seq<char>>::empty();
    let sep = "\n\n"@;
    assert(none.push(notes).push(profile).drop_last() =~= none.push(notes));
    assert(join(none.push(notes), sep) == notes);
    assert(join(none.push(profile), sep) == profile);
    assert(join(none.push(notes).push(profile), sep) == notes + sep + profile);
    assert(join(none, sep) =~= Seq::empty());
}

/// The prompt of all providers has the block of each that says anything, in their order.
pub proof fn prompts_hold_every_block(blocks: Seq<Option<Seq<char>>>, i: int)
    requires
        0 <= i < blocks.len(),
    ensures
        said_blocks(blocks.take(i + 1)) == match blocks[i] {
            Some(block) if block.len() > 0 => said_blocks(blocks.take(i)).push(block),
            _ => said_blocks(blocks.take(i)),
        },
        blocks[i] matches Some(block) ==> block.len() > 0 ==> contains(
            join(said_blocks(blocks), "\n\n"@),
            block,
        ),
{
    assert(blocks.take(i + 1).drop_last() =~= blocks.take(i));
    match blocks[i] {
        Some(block) => {
            if block.len() > 0 {
                let n = said_blocks(blocks.take(i)).len() as int;
                blocks_go_on(blocks, i + 1);
                assert(said_blocks(blocks)[n] == said_blocks(blocks.take(i + 1))[n]);
                joins_hold_their_parts(said_blocks(blocks), "\n\n"@, n);
            }
        },
        None => {},
    }
}

proof fn blocks_go_on(blocks: Seq<Option<Seq<char>>>, k: int)
    requires
        0 <= k <= blocks.len(),
    ensures
        said_blocks(blocks).len() >= said_blocks(blocks.take(k)).len(),
        forall|m: int|
            0 <= m < said_blocks(blocks.take(k)).len() ==> said_blocks(blocks)[m]
                == #[trigger] said_blocks(blocks.take(k))[m],
    decreases blocks.len() - k,
{
    if k < blocks.len() {
        assert(blocks.take(k + 1).drop_last() =~= blocks.take(k));
        blocks_go_on(blocks, k + 1);
        assert forall|m: int| 0 <= m < said_blocks(blocks.take(k)).len() implies said_blocks(
            blocks,
        )[m] == #[trigger] said_blocks(blocks.take(k))[m] by {
            assert(said_blocks(blocks.take(k + 1))[m] == said_blocks(blocks.take(k))[m]);
        }
    } else {
        assert(blocks.take(k) =~= blocks);
    }
}

/// The recall of a turn is what each provider recalled that is more than white space, in
/// their order, between the two ends of a fence; nothing where nothing was recalled.
pub proof fn recalls_are_fenced(hits: Seq<Option<Seq<char>>>, i: int)
    requires
        0 <= i < hits.len(),
    ensures
        recalled(hits.take(i + 1)) == match hits[i] {
            Some(hit) if trim(hit).len() > 0 => recalled(hits.take(i)).push(hit),
            _ => recalled(hits.take(i)),
        },
        recalled(hits.take(0)) == Seq::<Seq<char>>::empty(),
        fenced(Seq::empty()) == Seq::<char>::empty(),
        join(recalled(hits), "\n\n"@).len() > 0 ==> fenced(recalled(hits)) == "<memory-context>"@
            + "\n"@ + join(recalled(hits), "\n\n"@) + "\n"@ + "</memory-context>"@,
{
    assert(hits.take(i + 1).drop_last() =~= hits.take(i));
    assert(hits.take(0) =~= Seq::empty());
}

/// Reading a store answers with every entry, numbered from one, in their order, and with how
/// many there are, how much they take up and how much they may.
pub proof fn readings_list_every_entry(
    target: Target,
    entries: Seq<Seq<char>>,
    limit: nat,
    i: int,
)
    requires
        0 <= i < entries.len(),
    ensures
        ({
            let answer = read_answer(target, entries, limit);
            let tail = "\n\n["@ + decimal(entries.len()) + " entries, "@ + decimal(
                rendered(entries).len(),
            ) + "/"@ + decimal(limit) + " chars]"@;
            &&& contains(answer, decimal((i + 1) as nat) + ". "@ + entries[i])
            &&& answer.skip(answer.len() - tail.len()) == tail
        }),
{
    let lines = numbered(entries);
    let body = join(lines, "\n"@);
    let answer = read_answer(target, entries, limit);
    let tail = "\n\n["@ + decimal(entries.len()) + " entries, "@ + decimal(
        rendered(entries).len(),
    ) + "/"@ + decimal(limit) + " chars]"@;
    assert(answer =~= body + tail);
    assert(answer.skip(answer.len() - tail.len()) =~= tail);
    joins_hold_their_parts(lines, "\n"@, i);
    let line = decimal((i + 1) as nat) + ". "@ + entries[i];
    assert(lines[i] == line);
    contains_somewhere(body, line);
    let k = choose|k: int| #[trigger] occurs_at(body, line, k);
    assert(answer.subrange(k, k + line.len()) =~= body.subrange(k, k + line.len()));
    assert(occurs_at(answer, line, k));
    contains_somewhere(answer, line);
}

/// A call of the tool does to the store what its action says, to the target that it names:
/// reading changes nothing, and adding, removing and replacing come to what they come to in
/// the store, with its error where there is one.
pub proof fn calls_do_what_they_say(store: StoreView, files: Files, input: JsonView, now: u64)
    ensures
        ({
            let done = call_outcome(store, files, input, now);
            let action = input.at("action"@);
            let named = input.at("target"@);
            let known = named == JsonView::Text("memory"@) || named == JsonView::Text("user"@);
            let target = if named == JsonView::Text("user"@) {
                Target::User
            } else {
                Target::Memory
            };
            &&& !(action is Text) || !known ==> done.result is Err && done.files == files
            &&& known && action == JsonView::Text("read"@) ==> done.files == files && done.result
                == Ok::<Seq<char>, MemoryErrorView>(
                read_answer(target, entries_in(files, target), store.limit(target)),
            )
            &&& known && action == JsonView::Text("add"@) ==> match input.at("content"@) {
                JsonView::Text(content) => {
                    let add = added(store, files, target, content, scan_of(trim(content)), now);
                    &&& done.files == add.files
                    &&& done.result is Ok <==> add.result is Ok
                    &&& add.result matches Err(error) ==> done.result == Err::<
                        Seq<char>,
                        MemoryErrorView,
                    >(error)
                },
                _ => done.result == Err::<Seq<char>, MemoryErrorView>(
                    MemoryErrorView::MissingField { field: "content"@ },
                ) && done.files == files,
            }
            &&& known && action == JsonView::Text("remove"@) ==> match input.at("search"@) {
                JsonView::Text(search) => {
                    let remove = removed(store, files, target, search, now);
                    &&& done.files == remove.files
                    &&& match remove.result {
                        Ok(entry) => done.result matches Ok(answer) && contains(
                            answer,
                            excerpt(entry, 120),
                        ),
                        Err(error) => done.result == Err::<Seq<char>, MemoryErrorView>(error),
                    }
                },
                _ => done.result == Err::<Seq<char>, MemoryErrorView>(
                    MemoryErrorView::MissingField { field: "search"@ },
                ) && done.files == files,
            }
            &&& known && action == JsonView::Text("replace"@) ==> match (
                input.at("search"@),
                input.at("replacement"@),
            ) {
                (JsonView::Text(search), JsonView::Text(text)) => {
                    let replace = replaced(
                        store,
                        files,
                        target,
                        search,
                        text,
                        scan_of(trim(text)),
                        now,
                    );
                    &&& done.files == replace.files
                    &&& done.result is Ok <==> replace.result is Ok
                    &&& replace.result matches Err(error) ==> done.result == Err::<
                        Seq<char>,
                        MemoryErrorView,
                    >(error)
                },
                _ => done.result is Err && done.files == files,
            }
            &&& known && action is Text && action != JsonView::Text("read"@) && action
                != JsonView::Text("add"@) && action != JsonView::Text("remove"@) && action
                != JsonView::Text("replace"@) ==> done.result == Err::<Seq<char>, MemoryErrorView>(
                MemoryErrorView::InvalidAction { action: action->Text_0 },
            ) && done.files == files
        }),
{
    reveal_strlit("read");
    reveal_strlit("add");
    reveal_strlit("remove");
    reveal_strlit("replace");
    reveal_strlit("memory");
    reveal_strlit("user");
    assert("read"@.len() == 4 && "add"@.len() == 3 && "remove"@.len() == 6 && "replace"@.len() == 7);
    assert("memory"@.len() == 6 && "user"@.len() == 4);
    match input.at("search"@) {
        JsonView::Text(search) => {
            match input.at("target"@) {
                JsonView::Text(name) => match target_named(name) {
                    Ok(target) => match removed(store, files, target, search, now).result {
                        Ok(entry) => {
                            let none = Seq::<char>::empty();
                            let head = "ok — removed from "@ + crate::memory::store::label_of(
                                target,
                            ) + ": "@;
                            holds_within(head, excerpt(entry, 120), none);
                            assert(head + excerpt(entry, 120) + none =~= head + excerpt(
                                entry,
                                120,
                            ));
                        },
                        Err(_) => {},
                    },
                    Err(_) => {},
                },
                _ => {},
            }
        },
        _ => {},
    }
}

/// An excerpt is the whole text where that is short enough, and else its beginning and one
/// sign more.
pub proof fn excerpts_begin_the_text(text: Seq<char>, n: nat)
    ensures
        text.len() <= n ==> excerpt(text, n) == text,
        text.len() > n ==> excerpt(text, n).len() == n + 1 && excerpt(text, n).take(n as int)
            == text.take(n as int) && excerpt(text, n)[n as int] == '…',
{
    reveal_strlit("…");
    if text.len() > n {
        assert(excerpt(text, n).take(n as int) =~= text.take(n as int));
    }
}

/// Whether a file was changed by someone else: what it holds does not come back from its
/// entries, or one of them is over the cap.
pub open spec fn foreign(files: Files, target: Target, limit: nat) -> bool {
    let raw = files[key_of(target)];
    &&& files.contains_key(key_of(target))
    &&& trim(raw).len() > 0
    &&& trim(raw) != join(parsed(raw), "\n§\n"@) || exists|i: int|
        0 <= i < parsed(raw).len() && (#[trigger] parsed(raw)[i]).len() > limit
}

/// A file that was changed by someone else is never written over: whatever is asked, the
/// change is refused, the file stays as it is, and where no copy of that name is there yet
/// one is kept.
pub proof fn foreign_changes_are_kept(
    store: StoreView,
    files: Files,
    target: Target,
    text: Seq<char>,
    search: Seq<char>,
    scanned: Result<(), HitView>,
    now: u64,
)
    requires
        foreign(files, target, store.limit(target)),
    ensures
        added(store, files, target, text, scanned, now).result is Err,
        removed(store, files, target, search, now).result is Err,
        replaced(store, files, target, search, text, scanned, now).result is Err,
        ({
            let backup = key_of(target) + ".bak."@ + decimal(now as nat);
            let done = removed(store, files, target, search, now);
            search.len() > 0 && !files.contains_key(backup) ==> done.files == files.insert(
                backup,
                files[key_of(target)],
            )
        }),
        ({
            let backup = key_of(target) + ".bak."@ + decimal(now as nat);
            search.len() > 0 && files.contains_key(backup) ==> removed(
                store,
                files,
                target,
                search,
                now,
            ).files == files
        }),
{
}

/// When an entry can be added, and why not else: it has to say something, the scanner must
/// not block it, and it has to fit, alone and with the others, unless all of it is there.
pub proof fn what_fits_is_added(
    store: StoreView,
    files: Files,
    target: Target,
    text: Seq<char>,
    scanned: Result<(), HitView>,
    now: u64,
)
    requires
        !foreign(files, target, store.limit(target)),
    ensures
        ({
            let done = added(store, files, target, text, scanned, now);
            let said = trim(text);
            let limit = store.limit(target);
            let held = entries_in(files, target);
            let there = hold_all(held, entries_of(said, false));
            let size = join(held.push(said), "\n§\n"@).len();
            let blocked = store.threat_scanning && scanned is Err;
            &&& done.result is Ok <==> said.len() > 0 && !blocked && said.len() <= limit && (there
                || size <= limit)
            &&& done.result is Err ==> done.files == files
            &&& (done.result matches Err(MemoryErrorView::MissingField { .. })) <==> said.len() == 0
            &&& (done.result matches Err(MemoryErrorView::Threat { .. })) <==> said.len() > 0
                && blocked
            &&& (done.result matches Err(MemoryErrorView::EntryTooLong { .. })) <==> said.len() > 0
                && !blocked && said.len() > limit
            &&& (done.result matches Err(MemoryErrorView::OverLimit { .. })) <==> said.len() > 0
                && !blocked && said.len() <= limit && !there && size > limit
            &&& done.result matches Err(MemoryErrorView::EntryTooLong {
                actual,
                limit: cap,
            }) ==> actual == said.len() && cap == limit
            &&& done.result matches Err(MemoryErrorView::OverLimit {
                actual,
                limit: cap,
                ..
            }) ==> actual == size && cap == limit
        }),
{
}

/// Which entries hold a text: their places, in order, and no others.
pub proof fn matches_are_the_holders(entries: Seq<Seq<char>>, search: Seq<char>, i: int)
    requires
        0 <= i < entries.len(),
    ensures
        matching(entries, search).contains(i) <==> contains(entries[i], search),
    decreases entries.len(),
{
    let init = entries.drop_last();
    let n = entries.len() - 1;
    let before = matching(init, search);
    let all = matching(entries, search);
    places_are_small(init, search);
    if i < n {
        matches_are_the_holders(init, search, i);
        assert(init[i] == entries[i]);
        if before.contains(i) {
            let k = choose|k: int| 0 <= k < before.len() && before[k] == i;
            assert(all[k] == i);
        }
        if all.contains(i) {
            let k = choose|k: int| 0 <= k < all.len() && all[k] == i;
            assert(before[k] == i);
        }
    } else {
        if contains(entries[n], search) {
            assert(all[before.len() as int] == n);
        } else if all.contains(n) {
            let k = choose|k: int| 0 <= k < all.len() && all[k] == n;
            assert(before[k] < n);
        }
    }
}

proof fn places_are_small(entries: Seq<Seq<char>>, search: Seq<char>)
    ensures
        forall|k: int|
            0 <= k < matching(entries, search).len() ==> 0 <= #[trigger] matching(
                entries,
                search,
            )[k] < entries.len(),
        matching(entries, search).no_duplicates(),
    decreases entries.len(),
{
    if entries.len() > 0 {
        places_are_small(entries.drop_last(), search);
        let before = matching(entries.drop_last(), search);
        let all = matching(entries, search);
        assert forall|k: int| 0 <= k < all.len() implies 0 <= #[trigger] all[k] < entries.len() by {
            if k < before.len() {
                assert(all[k] == before[k]);
            }
        }
        assert forall|i: int, j: int|
            0 <= i < all.len() && 0 <= j < all.len() && i != j implies all[i] != all[j] by {
            if i < before.len() && j < before.len() {
                assert(before[i] != before[j]);
            }
        }
    }
}

/// The one entry that holds a text is found where there is exactly one; where there is none,
/// or where there are several, that is the error, with their number.
pub proof fn only_matches_are_found(entries: Seq<Seq<char>>, search: Seq<char>, i: int, j: int)
    requires
        0 <= i < entries.len(),
        0 <= j < entries.len(),
    ensures
        only_match(entries, search) matches Ok(k) ==> (contains(entries[i], search) <==> i == k),
        contains(entries[i], search) && contains(entries[j], search) && i != j ==> (only_match(
            entries,
            search,
        ) matches Err(MemoryErrorView::Ambiguous { count, .. }) && count >= 2),
        contains(entries[i], search) ==> !(only_match(entries, search) matches Err(
            MemoryErrorView::NoMatch { .. },
        )),
{
    let found = matching(entries, search);
    matches_are_the_holders(entries, search, i);
    matches_are_the_holders(entries, search, j);
    places_are_small(entries, search);
    if found.contains(i) {
        let a = choose|a: int| 0 <= a < found.len() && found[a] == i;
        if found.contains(j) {
            let b = choose|b: int| 0 <= b < found.len() && found[b] == j;
        }
    }
    if found.len() == 1 {
        assert(found.contains(found[0]));
        if i == found[0] {
            assert(found.contains(i));
        }
    }
}

/// How many entries hold a text.
pub open spec fn holders(entries: Seq<Seq<char>>, search: Seq<char>) -> nat
    decreases entries.len(),
{
    if entries.len() == 0 {
        0
    } else {
        holders(entries.skip(1), search) + if contains(entries[0], search) {
            1nat
        } else {
            0nat
        }
    }
}

proof fn holders_of_two(a: Seq<Seq<char>>, b: Seq<Seq<char>>, search: Seq<char>)
    ensures
        holders(a + b, search) == holders(a, search) + holders(b, search),
    decreases a.len(),
{
    if a.len() == 0 {
        assert(a + b =~= b);
    } else {
        holders_of_two(a.skip(1), b, search);
        assert((a + b).skip(1) =~= a.skip(1) + b);
    }
}

proof fn matches_are_all_holders(entries: Seq<Seq<char>>, search: Seq<char>)
    ensures
        matching(entries, search).len() == holders(entries, search),
    decreases entries.len(),
{
    if entries.len() > 0 {
        let front = entries.drop_last();
        let last = seq![entries.last()];
        matches_are_all_holders(front, search);
        assert(front + last =~= entries);
        holders_of_two(front, last, search);
        assert(last.skip(1) =~= Seq::empty());
        assert(holders(last.skip(1), search) == 0);
    }
}

/// Where a text is not held by one entry alone, the error tells the text that was searched
/// for and, where several hold it, how many do.
pub proof fn holders_are_counted(entries: Seq<Seq<char>>, search: Seq<char>)
    ensures
        only_match(entries, search) is Ok <==> holders(entries, search) == 1,
        holders(entries, search) == 0 ==> only_match(entries, search) == Err::<
            int,
            MemoryErrorView,
        >(MemoryErrorView::NoMatch { search }),
        holders(entries, search) > 1 ==> only_match(entries, search) == Err::<
            int,
            MemoryErrorView,
        >(MemoryErrorView::Ambiguous { search, count: holders(entries, search) }),
{
    matches_are_all_holders(entries, search);
}

/// When an entry is removed, and why not else.
pub proof fn what_is_unique_is_removed(
    store: StoreView,
    files: Files,
    target: Target,
    search: Seq<char>,
    now: u64,
)
    requires
        !foreign(files, target, store.limit(target)),
    ensures
        ({
            let done = removed(store, files, target, search, now);
            let found = only_match(entries_in(files, target), search);
            &&& done.result is Ok <==> search.len() > 0 && found is Ok
            &&& done.result is Err ==> done.files == files
            &&& (done.result matches Err(MemoryErrorView::MissingField { .. })) <==> search.len() == 0
            &&& search.len() > 0 ==> match found {
                Ok(i) => done.result == Ok::<Seq<char>, MemoryErrorView>(
                    entries_in(files, target)[i],
                ),
                Err(error) => done.result == Err::<Seq<char>, MemoryErrorView>(error),
            }
        }),
{
    let entries = entries_in(files, target);
    if entries.len() == 0 {
        assert(matching(entries, search).len() == 0);
    }
}

/// When an entry is replaced, and why not else.
pub proof fn what_is_unique_is_replaced(
    store: StoreView,
    files: Files,
    target: Target,
    search: Seq<char>,
    text: Seq<char>,
    scanned: Result<(), HitView>,
    now: u64,
)
    requires
        !foreign(files, target, store.limit(target)),
    ensures
        ({
            let done = replaced(store, files, target, search, text, scanned, now);
            let said = trim(text);
            let limit = store.limit(target);
            let held = entries_in(files, target);
            let found = only_match(held, search);
            let blocked = store.threat_scanning && scanned is Err;
            let allowed = search.len() > 0 && said.len() > 0 && !blocked && said.len() <= limit;
            &&& done.result is Ok <==> allowed && found is Ok && join(
                held.update(found->Ok_0, said),
                "\n§\n"@,
            ).len() <= limit
            &&& done.result is Err ==> done.files == files
            &&& allowed && found is Err ==> done.result == Err::<(), MemoryErrorView>(
                found->Err_0,
            )
            &&& (done.result matches Err(MemoryErrorView::Threat { .. })) <==> search.len() > 0
                && said.len() > 0 && blocked
        }),
{
}

} // verus!
