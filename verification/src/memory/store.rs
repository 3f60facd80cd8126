//! The bounded store: entries in two files, separated by a section sign on a line of its
//! own.
//!
//! Every change goes through the cap, the drift check and the threat scanner. A file
//! that would not come back the same from our own parser was edited by someone else: it
//! is copied aside and the change is refused.
use vstd::prelude::*;

use crate::memory::error::{MemoryError, MemoryErrorView};
use crate::memory::files::{Files, MemoryFs, exists_message};
use crate::memory::threats::{HitView, ThreatHit, matched_patterns, scan, verdict};
use crate::text::{
    chars_of, contains, decimal, decimal_of, has, join, joined, labelled, pieces, push_to, same,
    split, text_between, trim, trim_end, trimmed, trimmed_end,
};
use crate::text_laws::trim_end_shape;

verus! {

/// What stands between two entries.
pub const ENTRY_DELIMITER: &'static str = "\n§\n";

/// The cap on the characters of the memory store.
pub const DEFAULT_MEMORY_LIMIT: usize = 2200;

/// The cap on the characters of the user store.
pub const DEFAULT_USER_LIMIT: usize = 1375;

/// The key of the memory store.
pub const MEMORY_KEY: &'static str = "memory/MEMORY.md";

/// The key of the user store.
pub const USER_KEY: &'static str = "memory/USER.md";

/// Which of the two stores a call is about.
#[derive(Debug, Clone, Copy, PartialEq, Eq, Structural)]
pub enum Target {
    Memory,
    User,
}

/// The key of a store.
pub open spec fn key_of(target: Target) -> Seq<char> {
    match target {
        Target::Memory => MEMORY_KEY@,
        Target::User => USER_KEY@,
    }
}

/// The name of a store.
pub open spec fn label_of(target: Target) -> Seq<char> {
    match target {
        Target::Memory => "memory"@,
        Target::User => "user"@,
    }
}

/// The store that a name stands for.
pub open spec fn target_named(s: Seq<char>) -> Result<Target, MemoryErrorView> {
    if s == "memory"@ {
        Ok(Target::Memory)
    } else if s == "user"@ {
        Ok(Target::User)
    } else {
        Err(MemoryErrorView::InvalidTarget { target: s })
    }
}

impl Target {
    /// The store that a name stands for.
    pub fn parse(s: &str) -> (r: Result<Target, MemoryError>)
        ensures
            match r {
                Ok(target) => target_named(s@) == Ok::<Target, MemoryErrorView>(target),
                Err(error) => target_named(s@) == Err::<Target, MemoryErrorView>(
                    error.deep_view(),
                ),
            },
    {
        if same(s, "memory") {
            Ok(Target::Memory)
        } else if same(s, "user") {
            Ok(Target::User)
        } else {
            Err(MemoryError::InvalidTarget { target: s.to_owned() })
        }
    }

    /// The key of the store.
    pub fn key(self) -> (r: &'static str)
        ensures
            r@ == key_of(self),
    {
        match self {
            Target::Memory => MEMORY_KEY,
            Target::User => USER_KEY,
        }
    }

    /// The name of the store.
    pub fn label(self) -> (r: &'static str)
        ensures
            r@ == label_of(self),
    {
        match self {
            Target::Memory => "memory",
            Target::User => "user",
        }
    }
}

/// The pieces, trimmed, without those of which nothing is left.
pub open spec fn kept_pieces(parts: Seq<Seq<char>>) -> Seq<Seq<char>>
    decreases parts.len(),
{
    if parts.len() == 0 {
        Seq::empty()
    } else {
        let before = kept_pieces(parts.drop_last());
        if trim(parts.last()).len() == 0 {
            before
        } else {
            before.push(trim(parts.last()))
        }
    }
}

/// The entries of a file's content.
pub open spec fn parsed(raw: Seq<char>) -> Seq<Seq<char>> {
    kept_pieces(split(raw, ENTRY_DELIMITER@))
}

/// The content of a file with the given entries.
pub open spec fn rendered(entries: Seq<Seq<char>>) -> Seq<char> {
    join(entries, ENTRY_DELIMITER@)
}

/// The entries of a file's content.
pub fn parse_entries(raw: &str) -> (r: Vec<String>)
    ensures
        r.deep_view() == parsed(raw@),
{
    proof {
        reveal_strlit("\n§\n");
    }
    let parts = pieces(raw, ENTRY_DELIMITER);
    let mut out: Vec<String> = Vec::new();
    let mut i: usize = 0;
    let ghost all = parts.deep_view();
    assert(out.deep_view() =~= kept_pieces(all.take(0)));
    while i < parts.len()
        invariant
            i <= parts@.len(),
            all == parts.deep_view(),
            out.deep_view() == kept_pieces(all.take(i as int)),
        decreases parts@.len() - i,
    {
        assert(all.take(i + 1).drop_last() =~= all.take(i as int));
        let piece = trimmed(parts[i].as_str());
        if !piece.as_str().is_empty() {
            push_to(&mut out, piece);
        }
        i = i + 1;
    }
    assert(all.take(i as int) =~= all);
    out
}

/// The content of a file with the given entries.
pub fn render_entries(entries: &Vec<String>) -> (r: String)
    ensures
        r@ == rendered(entries.deep_view()),
{
    joined(entries, ENTRY_DELIMITER)
}

/// Whether a delimiter would begin in a text before the one that is put behind it.
pub open spec fn runs_into_delimiter(entry: Seq<char>) -> bool {
    entry.len() >= 2 && entry[entry.len() - 2] == '\n' && entry.last() == '§'
}

/// A text without the delimiters that begin at its end, so that one can be put behind it.
pub open spec fn closed_off(entry: Seq<char>) -> Seq<char>
    decreases entry.len(),
    via closed_off_shrinks
{
    if runs_into_delimiter(entry) {
        closed_off(trim_end(entry.take(entry.len() - 2)))
    } else {
        entry
    }
}

#[via_fn]
proof fn closed_off_shrinks(entry: Seq<char>) {
    if runs_into_delimiter(entry) {
        trim_end_shape(entry.take(entry.len() - 2));
    }
}

/// The texts as they are put one behind the other: each is closed off, but for the last one
/// where nothing follows it.
pub open spec fn settled(texts: Seq<Seq<char>>, followed: bool) -> Seq<Seq<char>> {
    Seq::new(
        texts.len(),
        |i: int|
            if followed || i < texts.len() - 1 {
                closed_off(texts[i])
            } else {
                texts[i]
            },
    )
}

/// The entries that a text comes to, where other entries follow it or not.
pub open spec fn entries_of(text: Seq<char>, followed: bool) -> Seq<Seq<char>> {
    settled(parsed(text), followed)
}

/// The entries with those of `more` that are missing put behind them.
pub open spec fn grown(entries: Seq<Seq<char>>, more: Seq<Seq<char>>) -> Seq<Seq<char>>
    decreases more.len(),
{
    if more.len() == 0 {
        entries
    } else {
        let before = grown(entries, more.drop_last());
        if before.contains(more.last()) {
            before
        } else {
            before.push(more.last())
        }
    }
}

/// The entries as others are put behind them: where a delimiter begins at the end of the
/// last one, it is closed off, and left out where that is there already.
pub open spec fn ready(entries: Seq<Seq<char>>) -> Seq<Seq<char>> {
    if entries.len() > 0 && runs_into_delimiter(entries.last()) {
        grown(entries.drop_last(), seq![closed_off(entries.last())])
    } else {
        entries
    }
}

/// Whether the entries hold all of `more`.
pub open spec fn hold_all(entries: Seq<Seq<char>>, more: Seq<Seq<char>>) -> bool {
    forall|i: int| 0 <= i < more.len() ==> entries.contains(#[trigger] more[i])
}

/// A text without the delimiters that begin at its end.
pub fn close_off(entry: &str) -> (r: String)
    ensures
        r@ == closed_off(entry@),
{
    let mut rest = entry.to_owned();
    loop
        invariant
            closed_off(rest@) == closed_off(entry@),
        ensures
            !runs_into_delimiter(rest@),
        decreases rest@.len(),
    {
        let chars = chars_of(rest.as_str());
        let n: usize = chars.len();
        if n >= 2 && chars[n - 2] == '\n' && chars[n - 1] == '§' {
            let head = text_between(&chars, 0, n - 2);
            assert(head@ =~= rest@.take(n - 2));
            proof {
                trim_end_shape(head@);
            }
            rest = trimmed_end(head.as_str());
        } else {
            break;
        }
    }
    rest
}

fn settle(texts: &Vec<String>, followed: bool) -> (r: Vec<String>)
    ensures
        r.deep_view() == settled(texts.deep_view(), followed),
{
    let mut out: Vec<String> = Vec::new();
    let n: usize = texts.len();
    let mut i: usize = 0;
    let ghost all = settled(texts.deep_view(), followed);
    assert(out.deep_view() =~= all.take(0));
    while i < n
        invariant
            i <= n == texts@.len(),
            all == settled(texts.deep_view(), followed),
            out.deep_view() == all.take(i as int),
        decreases n - i,
    {
        if followed || i < n - 1 {
            push_to(&mut out, close_off(texts[i].as_str()));
        } else {
            push_to(&mut out, texts[i].clone());
        }
        assert(out.deep_view() =~= all.take(i + 1));
        i = i + 1;
    }
    assert(all.take(i as int) =~= all);
    out
}

fn grow(entries: &mut Vec<String>, more: &Vec<String>)
    ensures
        final(entries).deep_view() == grown(old(entries).deep_view(), more.deep_view()),
{
    let ghost start = entries.deep_view();
    let ghost all = more.deep_view();
    let mut i: usize = 0;
    while i < more.len()
        invariant
            i <= more@.len(),
            all == more.deep_view(),
            entries.deep_view() == grown(start, all.take(i as int)),
        decreases more@.len() - i,
    {
        assert(all.take(i + 1).drop_last() =~= all.take(i as int));
        if !holds_entry(entries, more[i].as_str()) {
            push_to(entries, more[i].clone());
        }
        i = i + 1;
    }
    assert(all.take(i as int) =~= all);
}

fn make_ready(entries: &mut Vec<String>)
    ensures
        final(entries).deep_view() == ready(old(entries).deep_view()),
{
    let ghost start = entries.deep_view();
    if let Some(last) = entries.pop() {
        assert(start.last() == last@);
        assert(entries.deep_view() =~= start.drop_last());
        let closed = close_off(last.as_str());
        if same(closed.as_str(), last.as_str()) {
            proof {
                if runs_into_delimiter(last@) {
                    closing_off_cuts(last@);
                }
            }
            push_to(entries, last);
            assert(entries.deep_view() =~= start);
        } else {
            let mut more: Vec<String> = Vec::new();
            assert(more.deep_view() =~= Seq::empty());
            push_to(&mut more, closed);
            assert(more.deep_view() =~= seq![closed_off(start.last())]);
            grow(entries, &more);
        }
    } else {
        assert(entries.deep_view() =~= start);
    }
}

/// Closing a text off leaves a beginning of it, a shorter one where a delimiter began at its
/// end.
pub proof fn closing_off_cuts(entry: Seq<char>)
    ensures
        closed_off(entry).len() <= entry.len(),
        closed_off(entry) == entry.take(closed_off(entry).len() as int),
        runs_into_delimiter(entry) ==> closed_off(entry).len() < entry.len(),
    decreases entry.len(),
{
    if runs_into_delimiter(entry) {
        let head = entry.take(entry.len() - 2);
        trim_end_shape(head);
        closing_off_cuts(trim_end(head));
        let n = closed_off(entry).len() as int;
        assert(trim_end(head).take(n) =~= entry.take(n));
    } else {
        assert(entry.take(entry.len() as int) =~= entry);
    }
}

fn holds_entries(entries: &Vec<String>, more: &Vec<String>) -> (r: bool)
    ensures
        r == hold_all(entries.deep_view(), more.deep_view()),
{
    let ghost all = more.deep_view();
    let mut i: usize = 0;
    while i < more.len()
        invariant
            i <= more@.len(),
            all == more.deep_view(),
            forall|k: int| 0 <= k < i ==> entries.deep_view().contains(#[trigger] all[k]),
        decreases more@.len() - i,
    {
        if !holds_entry(entries, more[i].as_str()) {
            assert(!entries.deep_view().contains(all[i as int]));
            return false;
        }
        i = i + 1;
    }
    true
}

/// How many characters a file with the given entries has.
pub fn total_chars(entries: &Vec<String>) -> (r: usize)
    ensures
        r == rendered(entries.deep_view()).len(),
{
    render_entries(entries).as_str().unicode_len()
}

/// The places of the entries that hold `search`, in order.
pub open spec fn matching(entries: Seq<Seq<char>>, search: Seq<char>) -> Seq<int>
    decreases entries.len(),
{
    if entries.len() == 0 {
        Seq::empty()
    } else {
        let before = matching(entries.drop_last(), search);
        if contains(entries.last(), search) {
            before.push(entries.len() - 1)
        } else {
            before
        }
    }
}

/// The place of the one entry that holds `search`.
pub open spec fn only_match(entries: Seq<Seq<char>>, search: Seq<char>) -> Result<
    int,
    MemoryErrorView,
> {
    let found = matching(entries, search);
    if found.len() == 0 {
        Err(MemoryErrorView::NoMatch { search })
    } else if found.len() == 1 {
        Ok(found[0])
    } else {
        Err(MemoryErrorView::Ambiguous { search, count: found.len() })
    }
}

/// The place of the one entry that holds `search`.
pub fn unique_match(entries: &Vec<String>, search: &str) -> (r: Result<usize, MemoryError>)
    ensures
        match r {
            Ok(i) => only_match(entries.deep_view(), search@) == Ok::<int, MemoryErrorView>(
                i as int,
            ) && i < entries@.len(),
            Err(error) => only_match(entries.deep_view(), search@) == Err::<int, MemoryErrorView>(
                error.deep_view(),
            ),
        },
{
    let ghost all = entries.deep_view();
    let mut count: usize = 0;
    let mut first: usize = 0;
    let mut i: usize = 0;
    while i < entries.len()
        invariant
            i <= entries@.len(),
            all == entries.deep_view(),
            count == matching(all.take(i as int), search@).len(),
            count <= i,
            count > 0 ==> first < i && matching(all.take(i as int), search@)[0] == first,
        decreases entries@.len() - i,
    {
        assert(all.take(i + 1).drop_last() =~= all.take(i as int));
        if has(entries[i].as_str(), search) {
            if count == 0 {
                first = i;
            }
            count = count + 1;
        }
        i = i + 1;
    }
    assert(all.take(i as int) =~= all);
    if count == 0 {
        Err(MemoryError::NoMatch { search: search.to_owned() })
    } else if count == 1 {
        Ok(first)
    } else {
        Err(MemoryError::Ambiguous { search: search.to_owned(), count })
    }
}

/// The model of a store: its caps and whether it scans what it is given.
pub ghost struct StoreView {
    pub memory_limit: nat,
    pub user_limit: nat,
    pub threat_scanning: bool,
}

impl StoreView {
    /// The cap of a store.
    pub open spec fn limit(self, target: Target) -> nat {
        match target {
            Target::Memory => self.memory_limit,
            Target::User => self.user_limit,
        }
    }
}

/// What comes of an operation: its result, and the files after it.
pub ghost struct Outcome<T> {
    pub result: Result<T, MemoryErrorView>,
    pub files: Files,
}

/// The entries of a store.
pub open spec fn entries_in(files: Files, target: Target) -> Seq<Seq<char>> {
    if files.contains_key(key_of(target)) {
        parsed(files[key_of(target)])
    } else {
        Seq::empty()
    }
}

/// Whether a file was changed by someone else: it holds something, and it would not come
/// back the same from the parser or holds an entry over the cap.
pub open spec fn drifted(raw: Seq<char>, limit: nat) -> bool {
    &&& trim(raw).len() > 0
    &&& trim(raw) != rendered(parsed(raw)) || exists|i: int|
        0 <= i < parsed(raw).len() && (#[trigger] parsed(raw)[i]).len() > limit
}

/// The key of the copy of a file that was changed by someone else.
pub open spec fn backup_key(target: Target, now: u64) -> Seq<char> {
    key_of(target) + ".bak."@ + decimal(now as nat)
}

/// What comes of the check before a change: nothing where the file is ours, else a copy of
/// it and a refusal.
pub open spec fn guarded(files: Files, target: Target, limit: nat, now: u64) -> Outcome<()> {
    let key = key_of(target);
    if !files.contains_key(key) || !drifted(files[key], limit) {
        Outcome { result: Ok(()), files }
    } else {
        let backup = backup_key(target, now);
        if files.contains_key(backup) {
            Outcome { result: Err(MemoryErrorView::Storage(exists_message(backup))), files }
        } else {
            Outcome {
                result: Err(
                    MemoryErrorView::DriftDetected {
                        target: label_of(target),
                        backup_key: backup,
                    },
                ),
                files: files.insert(backup, files[key]),
            }
        }
    }
}

/// What comes of keeping the given entries, which were asked for with `size` characters:
/// refused where that is over the cap, else written.
pub open spec fn kept(
    files: Files,
    target: Target,
    entries: Seq<Seq<char>>,
    size: nat,
    limit: nat,
) -> Outcome<nat> {
    if size > limit {
        Outcome {
            result: Err(
                MemoryErrorView::OverLimit {
                    target: label_of(target),
                    actual: size,
                    limit,
                },
            ),
            files,
        }
    } else {
        Outcome {
            result: Ok(entries.len()),
            files: files.insert(key_of(target), rendered(entries)),
        }
    }
}

/// Whether a text may be kept as an entry, as the scanner and the cap see it.
pub open spec fn admissible(
    store: StoreView,
    target: Target,
    text: Seq<char>,
    scanned: Result<(), HitView>,
) -> Result<(), MemoryErrorView> {
    match scanned {
        Err(hit) if store.threat_scanning => Err(
            MemoryErrorView::Threat { kind: hit.kind, detail: hit.detail },
        ),
        _ => if text.len() > store.limit(target) {
            Err(MemoryErrorView::EntryTooLong { actual: text.len(), limit: store.limit(target) })
        } else {
            Ok(())
        },
    }
}

/// What comes of adding a text, where the scanner says `scanned` of it. The entries that
/// the text comes to are put behind the others, those that are there already are not, and
/// where none is missing nothing changes. The cap is held against the text as it is given.
pub open spec fn added(
    store: StoreView,
    files: Files,
    target: Target,
    content: Seq<char>,
    scanned: Result<(), HitView>,
    now: u64,
) -> Outcome<nat> {
    let text = trim(content);
    let limit = store.limit(target);
    if text.len() == 0 {
        Outcome { result: Err(MemoryErrorView::MissingField { field: "content"@ }), files }
    } else {
        match admissible(store, target, text, scanned) {
            Err(error) => Outcome { result: Err(error), files },
            Ok(_) => {
                let checked = guarded(files, target, limit, now);
                match checked.result {
                    Err(error) => Outcome { result: Err(error), files: checked.files },
                    Ok(_) => {
                        let held = entries_in(files, target);
                        let pieces = entries_of(text, false);
                        if hold_all(held, pieces) {
                            Outcome { result: Ok(held.len()), files }
                        } else {
                            kept(
                                files,
                                target,
                                grown(ready(held), pieces),
                                rendered(held.push(text)).len(),
                                limit,
                            )
                        }
                    },
                }
            },
        }
    }
}

/// What comes of removing the entry that holds `search`.
pub open spec fn removed(
    store: StoreView,
    files: Files,
    target: Target,
    search: Seq<char>,
    now: u64,
) -> Outcome<Seq<char>> {
    if search.len() == 0 {
        Outcome { result: Err(MemoryErrorView::MissingField { field: "search"@ }), files }
    } else {
        let checked = guarded(files, target, store.limit(target), now);
        match checked.result {
            Err(error) => Outcome { result: Err(error), files: checked.files },
            Ok(_) => {
                let entries = entries_in(files, target);
                match only_match(entries, search) {
                    Err(error) => Outcome { result: Err(error), files },
                    Ok(i) => Outcome {
                        result: Ok(entries[i]),
                        files: files.insert(key_of(target), rendered(entries.remove(i))),
                    },
                }
            },
        }
    }
}

/// The entries with others in the place of the one at `i`.
pub open spec fn spliced(
    entries: Seq<Seq<char>>,
    i: int,
    others: Seq<Seq<char>>,
) -> Seq<Seq<char>> {
    entries.take(i) + others + entries.skip(i + 1)
}

/// What comes of replacing the entry that holds `search`, where the scanner says `scanned`
/// of the replacement: the entries that the replacement comes to stand in its place, and
/// the others stay. The cap is held against the replacement as it is given.
pub open spec fn replaced(
    store: StoreView,
    files: Files,
    target: Target,
    search: Seq<char>,
    replacement: Seq<char>,
    scanned: Result<(), HitView>,
    now: u64,
) -> Outcome<()> {
    let text = trim(replacement);
    let limit = store.limit(target);
    if search.len() == 0 {
        Outcome { result: Err(MemoryErrorView::MissingField { field: "search"@ }), files }
    } else if text.len() == 0 {
        Outcome { result: Err(MemoryErrorView::MissingField { field: "replacement"@ }), files }
    } else {
        match admissible(store, target, text, scanned) {
            Err(error) => Outcome { result: Err(error), files },
            Ok(_) => {
                let checked = guarded(files, target, limit, now);
                match checked.result {
                    Err(error) => Outcome { result: Err(error), files: checked.files },
                    Ok(_) => {
                        let entries = entries_in(files, target);
                        match only_match(entries, search) {
                            Err(error) => Outcome { result: Err(error), files },
                            Ok(i) => {
                                let pieces = entries_of(text, i < entries.len() - 1);
                                let done = kept(
                                    files,
                                    target,
                                    spliced(entries, i, pieces),
                                    rendered(entries.update(i, text)).len(),
                                    limit,
                                );
                                match done.result {
                                    Ok(_) => Outcome { result: Ok(()), files: done.files },
                                    Err(error) => Outcome {
                                        result: Err(error),
                                        files: done.files,
                                    },
                                }
                            },
                        }
                    },
                }
            },
        }
    }
}

/// What the scanner says of a text.
pub open spec fn scan_of(text: Seq<char>) -> Result<(), HitView> {
    verdict(text, matched_patterns(text))
}

/// The bounded store. The files it works on are handed to each call, and so is the time,
/// which names the copies of files that were changed by someone else.
#[derive(Debug)]
pub struct BoundedMemoryStore {
    memory_limit: usize,
    user_limit: usize,
    lock_dir: Option<String>,
    threat_scanning: bool,
}

impl View for BoundedMemoryStore {
    type V = StoreView;

    closed spec fn view(&self) -> StoreView {
        StoreView {
            memory_limit: self.memory_limit as nat,
            user_limit: self.user_limit as nat,
            threat_scanning: self.threat_scanning,
        }
    }
}

impl Clone for BoundedMemoryStore {
    fn clone(&self) -> (r: BoundedMemoryStore)
        ensures
            r@ == self@,
            r.locks() == self.locks(),
    {
        BoundedMemoryStore {
            memory_limit: self.memory_limit,
            user_limit: self.user_limit,
            lock_dir: self.lock_dir.clone(),
            threat_scanning: self.threat_scanning,
        }
    }
}

fn threat(hit: ThreatHit) -> (r: MemoryError)
    ensures
        r.deep_view() == (MemoryErrorView::Threat {
            kind: hit.deep_view().kind,
            detail: hit.deep_view().detail,
        }),
{
    MemoryError::Threat { kind: hit.kind, detail: hit.detail }
}

/// Scans a text that is to be kept.
pub fn scan_or_err(content: &str) -> (r: Result<(), MemoryError>)
    ensures
        match (r, scan_of(content@)) {
            (Ok(_), Ok(_)) => true,
            (Err(error), Err(hit)) => error.deep_view() == (MemoryErrorView::Threat {
                kind: hit.kind,
                detail: hit.detail,
            }),
            _ => false,
        },
{
    match scan(content) {
        Ok(_) => Ok(()),
        Err(hit) => Err(threat(hit)),
    }
}

impl BoundedMemoryStore {
    /// Where the files that lock the store across processes are put.
    pub closed spec fn locks(&self) -> Option<Seq<char>> {
        self.lock_dir.deep_view()
    }

    /// A store with the default caps, which scans what it is given.
    pub fn new() -> (r: BoundedMemoryStore)
        ensures
            r@ == (StoreView {
                memory_limit: DEFAULT_MEMORY_LIMIT as nat,
                user_limit: DEFAULT_USER_LIMIT as nat,
                threat_scanning: true,
            }),
            r.locks() is None,
    {
        BoundedMemoryStore {
            memory_limit: DEFAULT_MEMORY_LIMIT,
            user_limit: DEFAULT_USER_LIMIT,
            lock_dir: None,
            threat_scanning: true,
        }
    }

    /// The store with other caps.
    pub fn with_limits(self, memory_limit: usize, user_limit: usize) -> (r: BoundedMemoryStore)
        ensures
            r@ == (StoreView {
                memory_limit: memory_limit as nat,
                user_limit: user_limit as nat,
                ..self@
            }),
            r.locks() == self.locks(),
    {
        BoundedMemoryStore { memory_limit, user_limit, ..self }
    }

    /// The store, locked across processes by files under `dir`.
    pub fn with_lock_dir(self, dir: String) -> (r: BoundedMemoryStore)
        ensures
            r@ == self@,
            r.locks() == Some(dir@),
    {
        BoundedMemoryStore { lock_dir: Some(dir), ..self }
    }

    /// The store, scanning what it is given or not.
    pub fn with_threat_scanning(self, enabled: bool) -> (r: BoundedMemoryStore)
        ensures
            r@ == (StoreView { threat_scanning: enabled, ..self@ }),
            r.locks() == self.locks(),
    {
        BoundedMemoryStore { threat_scanning: enabled, ..self }
    }

    /// Where the files that lock the store across processes are put.
    pub fn lock_dir(&self) -> (r: Option<&str>)
        ensures
            r.deep_view() == self.locks(),
    {
        match &self.lock_dir {
            Some(dir) => Some(dir.as_str()),
            None => None,
        }
    }

    /// The cap of a store.
    pub fn limit_for(&self, target: Target) -> (r: usize)
        ensures
            r == self@.limit(target),
    {
        match target {
            Target::Memory => self.memory_limit,
            Target::User => self.user_limit,
        }
    }

    /// The entries of a store; none where there is no file.
    pub fn read(&self, files: &MemoryFs, target: Target) -> (r: Vec<String>)
        ensures
            r.deep_view() == entries_in(files@, target),
    {
        match files.read(target.key()) {
            Some(content) => parse_entries(content.as_str()),
            None => {
                let r: Vec<String> = Vec::new();
                assert(r.deep_view() =~= Seq::empty());
                r
            },
        }
    }

    /// Checks that a store's file is ours; one that is not is copied aside and reported.
    pub fn check_drift_or_backup(
        &self,
        files: &mut MemoryFs,
        target: Target,
        now: u64,
    ) -> (r: Result<(), MemoryError>)
        ensures
            ({
                let outcome = guarded(old(files)@, target, self@.limit(target), now);
                &&& final(files)@ == outcome.files
                &&& match r {
                    Ok(_) => outcome.result == Ok::<(), MemoryErrorView>(()),
                    Err(error) => outcome.result == Err::<(), MemoryErrorView>(error.deep_view()),
                }
            }),
    {
        let raw = match files.read(target.key()) {
            Some(content) => content.clone(),
            None => {
                return Ok(());
            },
        };
        let limit = self.limit_for(target);
        let body = trimmed(raw.as_str());
        if body.as_str().is_empty() {
            return Ok(());
        }
        let entries = parse_entries(raw.as_str());
        let mut over = false;
        let mut i: usize = 0;
        while i < entries.len()
            invariant
                i <= entries@.len(),
                over == exists|k: int|
                    0 <= k < i && (#[trigger] entries.deep_view()[k]).len() > limit,
            decreases entries@.len() - i,
        {
            if entries[i].as_str().unicode_len() > limit {
                assert(entries.deep_view()[i as int].len() > limit);
                over = true;
            }
            i = i + 1;
        }
        if same(body.as_str(), render_entries(&entries).as_str()) && !over {
            return Ok(());
        }
        assert(drifted(raw@, limit as nat));
        let mut backup = labelled(target.key(), ".bak.");
        backup.append(decimal_of(now as u128).as_str());
        match files.write(backup.as_str(), raw.as_str()) {
            Ok(_) => Err(
                MemoryError::DriftDetected {
                    target: target.label().to_owned(),
                    backup_key: backup,
                },
            ),
            Err(error) => Err(MemoryError::Storage(error.message())),
        }
    }

    fn write_unlocked(&self, files: &mut MemoryFs, target: Target, entries: &Vec<String>) -> (r:
        Result<(), MemoryError>)
        ensures
            r is Ok,
            final(files)@ == old(files)@.insert(key_of(target), rendered(entries.deep_view())),
    {
        let ghost before = files@;
        let content = render_entries(entries);
        files.delete(target.key());
        match files.write(target.key(), content.as_str()) {
            Ok(_) => {
                assert(files@ =~= before.insert(key_of(target), content@));
                Ok(())
            },
            Err(error) => Err(MemoryError::Storage(error.message())),
        }
    }

    fn keep(
        &self,
        files: &mut MemoryFs,
        target: Target,
        entries: &Vec<String>,
        size: usize,
    ) -> (r: Result<usize, MemoryError>)
        ensures
            ({
                let outcome = kept(
                    old(files)@,
                    target,
                    entries.deep_view(),
                    size as nat,
                    self@.limit(target),
                );
                &&& final(files)@ == outcome.files
                &&& match r {
                    Ok(count) => outcome.result == Ok::<nat, MemoryErrorView>(count as nat),
                    Err(error) => outcome.result == Err::<nat, MemoryErrorView>(error.deep_view()),
                }
            }),
    {
        let limit = self.limit_for(target);
        if size > limit {
            return Err(
                MemoryError::OverLimit { target: target.label().to_owned(), actual: size, limit },
            );
        }
        match self.write_unlocked(files, target, entries) {
            Ok(_) => Ok(entries.len()),
            Err(error) => Err(error),
        }
    }

    fn allow(&self, target: Target, text: &str, scanned: Result<(), ThreatHit>) -> (r: Result<
        (),
        MemoryError,
    >)
        ensures
            match r {
                Ok(_) => admissible(self@, target, text@, scan_view(scanned)) is Ok,
                Err(error) => admissible(self@, target, text@, scan_view(scanned)) == Err::<
                    (),
                    MemoryErrorView,
                >(error.deep_view()),
            },
    {
        if self.threat_scanning {
            match scanned {
                Ok(_) => {},
                Err(hit) => {
                    return Err(threat(hit));
                },
            }
        }
        let limit = self.limit_for(target);
        let len = text.unicode_len();
        if len > limit {
            return Err(MemoryError::EntryTooLong { actual: len, limit });
        }
        Ok(())
    }

    /// Adds a text of which the scanner has said `scanned`. A text that holds delimiters
    /// comes to several entries. Adding what is there already changes nothing. Returns the
    /// number of entries after it.
    pub fn add_scanned(
        &self,
        files: &mut MemoryFs,
        target: Target,
        content: &str,
        scanned: Result<(), ThreatHit>,
        now: u64,
    ) -> (r: Result<usize, MemoryError>)
        ensures
            ({
                let outcome = added(
                    self@,
                    old(files)@,
                    target,
                    content@,
                    scan_view(scanned),
                    now,
                );
                &&& final(files)@ == outcome.files
                &&& match r {
                    Ok(count) => outcome.result == Ok::<nat, MemoryErrorView>(count as nat),
                    Err(error) => outcome.result == Err::<nat, MemoryErrorView>(error.deep_view()),
                }
            }),
    {
        let text = trimmed(content);
        if text.as_str().is_empty() {
            return Err(MemoryError::MissingField { field: "content" });
        }
        match self.allow(target, text.as_str(), scanned) {
            Ok(_) => {},
            Err(error) => {
                return Err(error);
            },
        }
        match self.check_drift_or_backup(files, target, now) {
            Ok(_) => {},
            Err(error) => {
                return Err(error);
            },
        }
        let mut entries = self.read(files, target);
        let ghost held = entries.deep_view();
        let pieces = settle(&parse_entries(text.as_str()), false);
        if holds_entries(&entries, &pieces) {
            return Ok(entries.len());
        }
        push_to(&mut entries, text);
        let size = total_chars(&entries);
        entries.pop();
        assert(entries.deep_view() =~= held);
        make_ready(&mut entries);
        grow(&mut entries, &pieces);
        self.keep(files, target, &entries, size)
    }

    /// Adds a text. A text that holds delimiters comes to several entries. Adding what is
    /// there already changes nothing. Returns the number of entries after it.
    pub fn add(&self, files: &mut MemoryFs, target: Target, content: &str, now: u64) -> (r: Result<
        usize,
        MemoryError,
    >)
        ensures
            ({
                let outcome = added(
                    self@,
                    old(files)@,
                    target,
                    content@,
                    scan_of(trim(content@)),
                    now,
                );
                &&& final(files)@ == outcome.files
                &&& match r {
                    Ok(count) => outcome.result == Ok::<nat, MemoryErrorView>(count as nat),
                    Err(error) => outcome.result == Err::<nat, MemoryErrorView>(error.deep_view()),
                }
            }),
    {
        let scanned = self.scan_if_asked(trimmed(content).as_str());
        self.add_scanned(files, target, content, scanned, now)
    }

    fn scan_if_asked(&self, text: &str) -> (r: Result<(), ThreatHit>)
        ensures
            self@.threat_scanning ==> scan_view(r) == scan_of(text@),
    {
        if self.threat_scanning {
            scan(text)
        } else {
            Ok(())
        }
    }

    /// Removes the one entry that holds `search`, and returns it.
    pub fn remove(&self, files: &mut MemoryFs, target: Target, search: &str, now: u64) -> (r:
        Result<String, MemoryError>)
        ensures
            ({
                let outcome = removed(self@, old(files)@, target, search@, now);
                &&& final(files)@ == outcome.files
                &&& match r {
                    Ok(entry) => outcome.result == Ok::<Seq<char>, MemoryErrorView>(entry@),
                    Err(error) => outcome.result == Err::<Seq<char>, MemoryErrorView>(
                        error.deep_view(),
                    ),
                }
            }),
    {
        if search.is_empty() {
            return Err(MemoryError::MissingField { field: "search" });
        }
        match self.check_drift_or_backup(files, target, now) {
            Ok(_) => {},
            Err(error) => {
                return Err(error);
            },
        }
        let mut entries = self.read(files, target);
        let ghost before = entries.deep_view();
        match unique_match(&entries, search) {
            Ok(i) => {
                let entry = entries.remove(i);
                assert(entries.deep_view() =~= before.remove(i as int));
                match self.write_unlocked(files, target, &entries) {
                    Ok(_) => Ok(entry),
                    Err(error) => Err(error),
                }
            },
            Err(error) => Err(error),
        }
    }

    /// Replaces the one entry that holds `search`, where the scanner has said `scanned` of
    /// the replacement.
    pub fn replace_scanned(
        &self,
        files: &mut MemoryFs,
        target: Target,
        search: &str,
        replacement: &str,
        scanned: Result<(), ThreatHit>,
        now: u64,
    ) -> (r: Result<(), MemoryError>)
        ensures
            ({
                let outcome = replaced(
                    self@,
                    old(files)@,
                    target,
                    search@,
                    replacement@,
                    scan_view(scanned),
                    now,
                );
                &&& final(files)@ == outcome.files
                &&& match r {
                    Ok(_) => outcome.result == Ok::<(), MemoryErrorView>(()),
                    Err(error) => outcome.result == Err::<(), MemoryErrorView>(error.deep_view()),
                }
            }),
    {
        if search.is_empty() {
            return Err(MemoryError::MissingField { field: "search" });
        }
        let text = trimmed(replacement);
        if text.as_str().is_empty() {
            return Err(MemoryError::MissingField { field: "replacement" });
        }
        match self.allow(target, text.as_str(), scanned) {
            Ok(_) => {},
            Err(error) => {
                return Err(error);
            },
        }
        match self.check_drift_or_backup(files, target, now) {
            Ok(_) => {},
            Err(error) => {
                return Err(error);
            },
        }
        let mut entries = self.read(files, target);
        let ghost before = entries.deep_view();
        match unique_match(&entries, search) {
            Ok(i) => {
                let pieces = settle(&parse_entries(text.as_str()), i < entries.len() - 1);
                let changed = splice(&entries, i, &pieces);
                entries.set(i, text);
                assert(entries.deep_view() =~= before.update(i as int, text@));
                let size = total_chars(&entries);
                match self.keep(files, target, &changed, size) {
                    Ok(_) => Ok(()),
                    Err(error) => Err(error),
                }
            },
            Err(error) => Err(error),
        }
    }

    /// Replaces the one entry that holds `search`.
    pub fn replace(
        &self,
        files: &mut MemoryFs,
        target: Target,
        search: &str,
        replacement: &str,
        now: u64,
    ) -> (r: Result<(), MemoryError>)
        ensures
            ({
                let outcome = replaced(
                    self@,
                    old(files)@,
                    target,
                    search@,
                    replacement@,
                    scan_of(trim(replacement@)),
                    now,
                );
                &&& final(files)@ == outcome.files
                &&& match r {
                    Ok(_) => outcome.result == Ok::<(), MemoryErrorView>(()),
                    Err(error) => outcome.result == Err::<(), MemoryErrorView>(error.deep_view()),
                }
            }),
    {
        let scanned = self.scan_if_asked(trimmed(replacement).as_str());
        self.replace_scanned(files, target, search, replacement, scanned, now)
    }

    /// How many characters a store's entries take up.
    pub fn char_count(&self, files: &MemoryFs, target: Target) -> (r: usize)
        ensures
            r == rendered(entries_in(files@, target)).len(),
    {
        total_chars(&self.read(files, target))
    }

    /// One store as a block of the system prompt.
    pub fn render_block(&self, files: &MemoryFs, target: Target) -> (r: String)
        ensures
            r@ == block_text(target, entries_in(files@, target), self@.limit(target)),
    {
        render_block(target, &self.read(files, target), self.limit_for(target))
    }

    /// Both stores as blocks of the system prompt.
    pub fn snapshot(&self, files: &MemoryFs) -> (r: MemorySnapshot)
        ensures
            r.memory_block@ == block_text(
                Target::Memory,
                entries_in(files@, Target::Memory),
                self@.limit(Target::Memory),
            ),
            r.user_block@ == block_text(
                Target::User,
                entries_in(files@, Target::User),
                self@.limit(Target::User),
            ),
    {
        MemorySnapshot {
            memory_block: self.render_block(files, Target::Memory),
            user_block: self.render_block(files, Target::User),
        }
    }
}

fn splice(entries: &Vec<String>, at: usize, others: &Vec<String>) -> (r: Vec<String>)
    requires
        at < entries@.len(),
    ensures
        r.deep_view() == spliced(entries.deep_view(), at as int, others.deep_view()),
{
    let ghost all = entries.deep_view();
    let ghost new = others.deep_view();
    let n: usize = entries.len();
    let mut out: Vec<String> = Vec::new();
    let mut i: usize = 0;
    assert(out.deep_view() =~= all.take(0));
    while i < at
        invariant
            i <= at < entries@.len(),
            all == entries.deep_view(),
            out.deep_view() == all.take(i as int),
        decreases at - i,
    {
        push_to(&mut out, entries[i].clone());
        assert(out.deep_view() =~= all.take(i + 1));
        i = i + 1;
    }
    let mut k: usize = 0;
    assert(out.deep_view() =~= all.take(at as int) + new.take(0));
    while k < others.len()
        invariant
            k <= others@.len(),
            new == others.deep_view(),
            out.deep_view() == all.take(at as int) + new.take(k as int),
        decreases others@.len() - k,
    {
        push_to(&mut out, others[k].clone());
        assert(out.deep_view() =~= all.take(at as int) + new.take(k + 1));
        k = k + 1;
    }
    assert(new.take(k as int) =~= new);
    i = at + 1;
    let ghost front = all.take(at as int) + new;
    assert(out.deep_view() =~= front + all.subrange(at + 1, i as int));
    while i < n
        invariant
            n == entries@.len(),
            at + 1 <= i <= n,
            all == entries.deep_view(),
            out.deep_view() == front + all.subrange(at + 1, i as int),
        decreases entries@.len() - i,
    {
        push_to(&mut out, entries[i].clone());
        assert(out.deep_view() =~= front + all.subrange(at + 1, i + 1));
        i = i + 1;
    }
    assert(all.subrange(at + 1, i as int) =~= all.skip(at + 1));
    out
}

fn holds_entry(entries: &Vec<String>, text: &str) -> (r: bool)
    ensures
        r == entries.deep_view().contains(text@),
{
    let mut i: usize = 0;
    while i < entries.len()
        invariant
            i <= entries@.len(),
            forall|k: int| 0 <= k < i ==> #[trigger] entries.deep_view()[k] != text@,
        decreases entries@.len() - i,
    {
        if same(entries[i].as_str(), text) {
            assert(entries.deep_view()[i as int] == text@);
            return true;
        }
        i = i + 1;
    }
    false
}

/// The rule over and under a block's header.
pub const SEPARATOR: &'static str = "══════════════════════════════════════════════";

/// How full a store is, in percent: a hundred at the most, and none where there is no cap.
pub open spec fn percent(current: nat, limit: nat) -> nat {
    if limit == 0 {
        0
    } else if current * 100 / limit > 100 {
        100
    } else {
        current * 100 / limit
    }
}

/// The header of a block: what the store is, and how full.
pub open spec fn block_header(target: Target, current: nat, limit: nat) -> Seq<char> {
    (match target {
        Target::Memory => "MEMORY (your personal notes) ["@,
        Target::User => "USER PROFILE (who the user is) ["@,
    }) + decimal(percent(current, limit)) + "% — "@ + decimal(current) + "/"@ + decimal(limit)
        + " chars]"@
}

/// A store's entries as a block of the system prompt; nothing where there are none.
pub open spec fn block_text(target: Target, entries: Seq<Seq<char>>, limit: nat) -> Seq<char> {
    if entries.len() == 0 {
        Seq::empty()
    } else {
        let content = rendered(entries);
        SEPARATOR@ + "\n"@ + block_header(target, content.len(), limit) + "\n"@ + SEPARATOR@
            + "\n"@ + content
    }
}

/// A store's entries as a block of the system prompt.
pub fn render_block(target: Target, entries: &Vec<String>, limit: usize) -> (r: String)
    ensures
        r@ == block_text(target, entries.deep_view(), limit as nat),
{
    if entries.len() == 0 {
        return String::new();
    }
    let content = render_entries(entries);
    let current: usize = content.as_str().unicode_len();
    let mut pct: u128 = 0;
    if limit > 0 {
        pct = current as u128 * 100 / limit as u128;
        if pct > 100 {
            pct = 100;
        }
    }
    let mut header = match target {
        Target::Memory => "MEMORY (your personal notes) [".to_owned(),
        Target::User => "USER PROFILE (who the user is) [".to_owned(),
    };
    header.append(decimal_of(pct).as_str());
    header.append("% — ");
    header.append(decimal_of(current as u128).as_str());
    header.append("/");
    header.append(decimal_of(limit as u128).as_str());
    header.append(" chars]");
    let mut out = SEPARATOR.to_owned();
    out.append("\n");
    out.append(header.as_str());
    out.append("\n");
    out.append(SEPARATOR);
    out.append("\n");
    out.append(content.as_str());
    out
}

/// Both stores as blocks of the system prompt, taken once.
#[derive(Debug)]
pub struct MemorySnapshot {
    /// The block of the memory store, empty where that is.
    pub memory_block: String,
    /// The block of the user store, empty where that is.
    pub user_block: String,
}

/// The blocks that are switched on and hold anything.
pub open spec fn shown_blocks(
    memory_block: Seq<char>,
    user_block: Seq<char>,
    memory_enabled: bool,
    user_enabled: bool,
) -> Seq<Seq<char>> {
    let first = if memory_enabled && memory_block.len() > 0 {
        Seq::empty().push(memory_block)
    } else {
        Seq::empty()
    };
    if user_enabled && user_block.len() > 0 {
        first.push(user_block)
    } else {
        first
    }
}

impl MemorySnapshot {
    /// The section of the system prompt, each store in it or not.
    pub fn section(&self, memory_enabled: bool, user_enabled: bool) -> (r: String)
        ensures
            r@ == join(
                shown_blocks(self.memory_block@, self.user_block@, memory_enabled, user_enabled),
                "\n\n"@,
            ),
    {
        let mut parts: Vec<String> = Vec::new();
        assert(parts.deep_view() =~= Seq::empty());
        if memory_enabled && !self.memory_block.as_str().is_empty() {
            push_to(&mut parts, self.memory_block.clone());
        }
        if user_enabled && !self.user_block.as_str().is_empty() {
            push_to(&mut parts, self.user_block.clone());
        }
        joined(&parts, "\n\n")
    }
}

/// What the scanner said.
pub open spec fn scan_view(scanned: Result<(), ThreatHit>) -> Result<(), HitView> {
    match scanned {
        Ok(_) => Ok(()),
        Err(hit) => Err(hit.deep_view()),
    }
}

} // verus!
