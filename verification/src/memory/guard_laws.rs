//! What keeps an entry out, which write is refused, and what is said of it.
use std::collections::hash_map::DefaultHasher;

use vstd::prelude::*;
use vstd::std_specs::hash::DefaultHasherAdditionalSpecFns;
use vstd::utf8::encode_utf8;

use crate::memory::error::{MemoryErrorView, memory_message};
use crate::memory::storage::{hashed_writes, may_write, revision_of};
use crate::memory::threats::{
    HitView, first_invisible, first_match, is_invisible, kind_at, matched_patterns, pattern_at,
    regex_match, verdict,
};
use crate::spelling_laws::{hex_value, hexadecimals_spell_their_number};
use crate::text::{contains, decimal, hex_padded, quoted_text, starts_with};
use crate::text_laws::{holds_still, holds_the_end};

verus! {

/// The characters that are not seen: those of no width, the mark of byte order, and those
/// that turn the direction of a text.
pub open spec fn unseen() -> Seq<char> {
    seq![
        '\u{200b}',
        '\u{200c}',
        '\u{200d}',
        '\u{2060}',
        '\u{feff}',
        '\u{202a}',
        '\u{202b}',
        '\u{202c}',
        '\u{202d}',
        '\u{202e}',
    ]
}

proof fn unseen_is_invisible(c: char)
    ensures
        is_invisible(c) <==> unseen().contains(c),
{
    let list = unseen();
    assert(list.len() == 10);
    assert(list[0] == '\u{200b}' && list[1] == '\u{200c}' && list[2] == '\u{200d}');
    assert(list[3] == '\u{2060}' && list[4] == '\u{feff}' && list[5] == '\u{202a}');
    assert(list[6] == '\u{202b}' && list[7] == '\u{202c}' && list[8] == '\u{202d}');
    assert(list[9] == '\u{202e}');
    if is_invisible(c) {
        let n = c as u32;
        assert(n == 0x200b || n == 0x200c || n == 0x200d || n == 0x2060 || n == 0xfeff || n
            == 0x202a || n == 0x202b || n == 0x202c || n == 0x202d || n == 0x202e);
        let i = if n == 0x200b {
            0
        } else if n == 0x200c {
            1
        } else if n == 0x200d {
            2
        } else if n == 0x2060 {
            3
        } else if n == 0xfeff {
            4
        } else if n == 0x202a {
            5
        } else if n == 0x202b {
            6
        } else if n == 0x202c {
            7
        } else if n == 0x202d {
            8
        } else {
            9int
        };
        assert(list[i] as u32 == n);
        assert(list[i] == c);
    }
}

proof fn the_first_is_found(s: Seq<char>)
    ensures
        match first_invisible(s) {
            Some(c) => exists|i: int|
                0 <= i < s.len() && s[i] == c && is_invisible(c) && forall|k: int|
                    0 <= k < i ==> !is_invisible(#[trigger] s[k]),
            None => forall|i: int| 0 <= i < s.len() ==> !is_invisible(#[trigger] s[i]),
        },
    decreases s.len(),
{
    if s.len() > 0 {
        let rest = s.skip(1);
        if is_invisible(s[0]) {
            assert(s[0] == first_invisible(s)->0);
        } else {
            the_first_is_found(rest);
            match first_invisible(rest) {
                Some(c) => {
                    let i = choose|i: int|
                        0 <= i < rest.len() && rest[i] == c && is_invisible(c) && forall|k: int|
                            0 <= k < i ==> !is_invisible(#[trigger] rest[k]);
                    assert(s[i + 1] == c);
                    assert forall|k: int| 0 <= k < i + 1 implies !is_invisible(
                        #[trigger] s[k],
                    ) by {
                        if k > 0 {
                            assert(rest[k - 1] == s[k]);
                        }
                    }
                },
                None => {
                    assert forall|i: int| 0 <= i < s.len() implies !is_invisible(
                        #[trigger] s[i],
                    ) by {
                        if i > 0 {
                            assert(rest[i - 1] == s[i]);
                        }
                    }
                },
            }
        }
    }
}

/// A text with a character in it that is not seen is kept out, whatever else it holds, and
/// the first such character is named by its number.
pub proof fn unseen_characters_are_named(content: Seq<char>, matched: Seq<bool>, i: int)
    requires
        0 <= i < content.len(),
        unseen().contains(content[i]),
        forall|k: int| 0 <= k < i ==> !unseen().contains(#[trigger] content[k]),
    ensures
        verdict(content, matched) matches Err(hit) && hit.kind == "invisible_unicode"@
            && starts_with(hit.detail, "U+"@) && hit.detail.len() >= 6 && hex_value(
            hit.detail.skip(2),
        ) == content[i] as nat,
{
    reveal_strlit("U+");
    the_first_is_found(content);
    unseen_is_invisible(content[i]);
    assert(is_invisible(content[i]));
    let c = first_invisible(content)->0;
    let k = choose|k: int|
        0 <= k < content.len() && content[k] == c && is_invisible(c) && forall|j: int|
            0 <= j < k ==> !is_invisible(#[trigger] content[j]);
    unseen_is_invisible(content[k]);
    if k < i {
        assert(!unseen().contains(content[k]));
    }
    assert(k == i);
    let digits = hex_padded(c as nat, 4, true);
    hexadecimals_spell_their_number(c as nat, 4, true);
    assert(("U+"@ + digits).skip(2) =~= digits);
    assert(("U+"@ + digits).take(2) =~= "U+"@);
}

proof fn first_match_is_first(matched: Seq<bool>, from: int, i: int)
    requires
        0 <= from <= i < matched.len(),
        matched[i],
        forall|k: int| from <= k < i ==> !#[trigger] matched[k],
    ensures
        first_match(matched, from) == Err::<(), HitView>(
            HitView { kind: kind_at(i), detail: Seq::empty() },
        ),
    decreases i - from,
{
    if from < i {
        first_match_is_first(matched, from + 1, i);
    }
}

proof fn no_match_is_none(matched: Seq<bool>, from: int)
    requires
        0 <= from,
        forall|k: int| from <= k < matched.len() ==> !#[trigger] matched[k],
    ensures
        first_match(matched, from) is Ok,
    decreases matched.len() - from,
{
    if from < matched.len() {
        no_match_is_none(matched, from + 1);
    }
}

/// What is taken for a threat: its kind, and the pattern by which it is known, in the
/// order in which they are looked for.
pub open spec fn known_threats() -> Seq<(Seq<char>, Seq<char>)> {
    seq![
        ("prompt_injection"@, "(?i)ignore\\s+(previous|all|above|prior)\\s+instructions"@),
        ("role_hijack"@, "(?i)\\byou\\s+are\\s+now\\b"@),
        ("deception_hide"@, "(?i)do\\s+not\\s+tell\\s+the\\s+user"@),
        ("sys_prompt_override"@, "(?i)system\\s+prompt\\s+override"@),
        (
            "disregard_rules"@,
            "(?i)disregard\\s+(your|all|any)\\s+(instructions|rules|guidelines)"@,
        ),
        (
            "bypass_restrictions"@,
            "(?i)act\\s+as\\s+(if|though)\\s+you\\s+(have\\s+no|don'?t\\s+have)\\s+(restrictions|limits|rules)"@,
        ),
        (
            "exfil_curl"@,
            "(?i)curl\\b[^\\n]*\\$\\{?\\w*(KEY|TOKEN|SECRET|PASSWORD|CREDENTIAL|API)"@,
        ),
        (
            "exfil_wget"@,
            "(?i)wget\\b[^\\n]*\\$\\{?\\w*(KEY|TOKEN|SECRET|PASSWORD|CREDENTIAL|API)"@,
        ),
        (
            "read_secrets"@,
            "(?i)cat\\b[^\\n]*(\\.env|credentials|\\.netrc|\\.pgpass|\\.npmrc|\\.pypirc)"@,
        ),
        ("ssh_backdoor"@, "authorized_keys"@),
        ("ssh_dir"@, "(?i)(\\$HOME|~)/\\.ssh"@),
        ("runic_env"@, "(?i)(\\$HOME|~)/\\.runic/\\.env"@),
        ("hermes_env"@, "(?i)(\\$HOME|~)/\\.hermes/\\.env"@),
    ]
}

/// A text in which all is seen is kept out where a known threat is found in it, as a threat
/// of the first kind that is found; and it is kept where none is.
pub proof fn threats_are_kept_out(content: Seq<char>, i: int)
    requires
        forall|k: int| 0 <= k < content.len() ==> !unseen().contains(#[trigger] content[k]),
        0 <= i < known_threats().len(),
    ensures
        ({
            let threats = known_threats();
            let result = verdict(content, matched_patterns(content));
            &&& regex_match(threats[i].1, content) == Some(true) ==> result is Err
            &&& regex_match(threats[i].1, content) == Some(true) && (forall|k: int|
                0 <= k < i ==> regex_match((#[trigger] threats[k]).1, content) != Some(true))
                ==> result->Err_0.kind == threats[i].0
            &&& (forall|k: int|
                0 <= k < threats.len() ==> regex_match((#[trigger] threats[k]).1, content) != Some(
                    true,
                )) ==> result is Ok
        }),
{
    let threats = known_threats();
    let m = matched_patterns(content);
    assert(threats.len() == 13 && m.len() == 13);
    assert forall|k: int| 0 <= k < 13 implies (#[trigger] threats[k]) == (
        kind_at(k),
        pattern_at(k),
    ) by {}
    assert forall|k: int| 0 <= k < 13 implies (#[trigger] m[k] <==> regex_match(
        threats[k].1,
        content,
    ) == Some(true)) by {}
    assert forall|k: int| 0 <= k < content.len() implies !is_invisible(#[trigger] content[k]) by {
        unseen_is_invisible(content[k]);
    }
    the_first_is_found(content);
    if m[i] {
        let j = first_of(m, i);
        first_match_is_first(m, 0, j);
        if forall|k: int|
            0 <= k < i ==> regex_match((#[trigger] threats[k]).1, content) != Some(true) {
            assert forall|k: int| 0 <= k < i implies !#[trigger] m[k] by {
                assert(regex_match(threats[k].1, content) != Some(true));
            }
            first_match_is_first(m, 0, i);
        }
    }
    if forall|k: int|
        0 <= k < threats.len() ==> regex_match((#[trigger] threats[k]).1, content) != Some(true) {
        assert forall|k: int| 0 <= k < m.len() implies !#[trigger] m[k] by {
            assert(regex_match(threats[k].1, content) != Some(true));
        }
        no_match_is_none(m, 0);
    }
}

proof fn first_of(m: Seq<bool>, i: int) -> (j: int)
    requires
        0 <= i < m.len(),
        m[i],
    ensures
        0 <= j <= i,
        m[j],
        forall|k: int| 0 <= k < j ==> !#[trigger] m[k],
    decreases i,
{
    if exists|k: int| 0 <= k < i && #[trigger] m[k] {
        let k = choose|k: int| 0 <= k < i && #[trigger] m[k];
        first_of(m, k)
    } else {
        i
    }
}

/// An object that is missing may be created by one who saw nothing, and by no one else. One
/// that is there may be replaced by one who saw what it holds, and never by one who saw
/// nothing.
pub proof fn writers_must_have_seen(content: Seq<char>, seen: Seq<char>)
    ensures
        may_write(None, None),
        !may_write(None, Some(seen)),
        !may_write(Some(content), None),
        may_write(Some(content), Some(revision_of(content))),
        revision_of(seen) != revision_of(content) ==> !may_write(
            Some(content),
            Some(revision_of(seen)),
        ),
{
}

/// A revision spells the hash of the content, in sixteen digits at the least, so that two
/// contents have one revision only where they have one hash.
pub proof fn revisions_spell_the_hash(content: Seq<char>, other: Seq<char>)
    ensures
        revision_of(content).len() >= 16,
        revision_of(content) == revision_of(other) ==> DefaultHasher::spec_finish(
            hashed_writes(content),
        ) == DefaultHasher::spec_finish(hashed_writes(other)),
        hashed_writes(content).len() == 2,
        hashed_writes(content)[0] == encode_utf8(content),
{
    let a = DefaultHasher::spec_finish(hashed_writes(content)) as nat;
    let b = DefaultHasher::spec_finish(hashed_writes(other)) as nat;
    hexadecimals_spell_their_number(a, 16, false);
    hexadecimals_spell_their_number(b, 16, false);
}

/// What is said of a refusal holds what the caller needs to know to do better.
pub proof fn refusals_say_why(error: MemoryErrorView)
    ensures
        ({
            let said = memory_message(error);
            match error {
                MemoryErrorView::Storage(m) => contains(said, m),
                MemoryErrorView::OverLimit { target, actual, limit } => contains(said, target)
                    && contains(said, decimal(actual)) && contains(said, decimal(limit)),
                MemoryErrorView::EntryTooLong { actual, limit } => contains(said, decimal(actual))
                    && contains(said, decimal(limit)),
                MemoryErrorView::NoMatch { search } => contains(said, quoted_text(search)),
                MemoryErrorView::Ambiguous { search, count } => contains(said, quoted_text(search))
                    && contains(said, decimal(count)),
                MemoryErrorView::InvalidAction { action } => contains(said, quoted_text(action)),
                MemoryErrorView::InvalidTarget { target } => contains(said, quoted_text(target)),
                MemoryErrorView::MissingField { field } => contains(said, field),
                MemoryErrorView::Threat { kind, detail } => contains(said, kind) && contains(
                    said,
                    detail,
                ),
                MemoryErrorView::DriftDetected { target, backup_key } => contains(said, target)
                    && contains(said, quoted_text(backup_key)),
                MemoryErrorView::Lock { target, source } => contains(said, target) && contains(
                    said,
                    source,
                ),
            }
        }),
{
    match error {
        MemoryErrorView::Storage(m) => holds_the_end("storage error: "@, m),
        MemoryErrorView::OverLimit { target, actual, limit } => {
            let a = "would exceed cap for "@ + target;
            let b = a + ": "@;
            let c = b + decimal(actual);
            let d = c + "/"@;
            let e = d + decimal(limit);
            let tail = " chars (remove or replace an entry first)"@;
            holds_the_end("would exceed cap for "@, target);
            holds_still(a, ": "@, target);
            holds_still(b, decimal(actual), target);
            holds_still(c, "/"@, target);
            holds_still(d, decimal(limit), target);
            holds_still(e, tail, target);
            holds_the_end(b, decimal(actual));
            holds_still(c, "/"@, decimal(actual));
            holds_still(d, decimal(limit), decimal(actual));
            holds_still(e, tail, decimal(actual));
            holds_the_end(d, decimal(limit));
            holds_still(e, tail, decimal(limit));
        },
        MemoryErrorView::EntryTooLong { actual, limit } => {
            let a = "entry too long: "@ + decimal(actual);
            let b = a + " chars > per-target cap of "@;
            holds_the_end("entry too long: "@, decimal(actual));
            holds_still(a, " chars > per-target cap of "@, decimal(actual));
            holds_still(b, decimal(limit), decimal(actual));
            holds_the_end(b, decimal(limit));
        },
        MemoryErrorView::NoMatch { search } => holds_the_end(
            "no entry contained substring "@,
            quoted_text(search),
        ),
        MemoryErrorView::Ambiguous { search, count } => {
            let a = "ambiguous: substring "@ + quoted_text(search);
            let b = a + " matched "@;
            let c = b + decimal(count);
            holds_the_end("ambiguous: substring "@, quoted_text(search));
            holds_still(a, " matched "@, quoted_text(search));
            holds_still(b, decimal(count), quoted_text(search));
            holds_still(c, " entries — narrow it"@, quoted_text(search));
            holds_the_end(b, decimal(count));
            holds_still(c, " entries — narrow it"@, decimal(count));
        },
        MemoryErrorView::InvalidAction { action } => {
            let a = "invalid action "@ + quoted_text(action);
            holds_the_end("invalid action "@, quoted_text(action));
            holds_still(
                a,
                ": must be one of add | replace | remove | read"@,
                quoted_text(action),
            );
        },
        MemoryErrorView::InvalidTarget { target } => {
            let a = "invalid target "@ + quoted_text(target);
            holds_the_end("invalid target "@, quoted_text(target));
            holds_still(a, ": must be 'memory' or 'user'"@, quoted_text(target));
        },
        MemoryErrorView::MissingField { field } => holds_the_end(
            "missing required field: "@,
            field,
        ),
        MemoryErrorView::Threat { kind, detail } => {
            let a = "blocked by threat scanner ("@ + kind;
            let tail = "): rephrase the entry"@;
            let more = if detail.len() == 0 {
                Seq::empty()
            } else {
                ": "@ + detail
            };
            holds_the_end("blocked by threat scanner ("@, kind);
            holds_still(a, more, kind);
            holds_still(a + more, tail, kind);
            if detail.len() == 0 {
                assert(detail =~= more);
                holds_the_end(a, more);
                holds_still(a + more, tail, detail);
            } else {
                holds_the_end(a + ": "@, detail);
                assert(a + ": "@ + detail =~= a + more);
                holds_still(a + more, tail, detail);
            }
        },
        MemoryErrorView::DriftDetected { target, backup_key } => {
            let a = "refusing to write "@ + target;
            let middle =
                ": on-disk content was edited externally and would be lost on overwrite. A backup was saved to "@;
            let b = a + middle;
            let c = b + quoted_text(backup_key);
            let tail = ". Inspect it, then re-issue the write."@;
            holds_the_end("refusing to write "@, target);
            holds_still(a, middle, target);
            holds_still(b, quoted_text(backup_key), target);
            holds_still(c, tail, target);
            holds_the_end(b, quoted_text(backup_key));
            holds_still(c, tail, quoted_text(backup_key));
        },
        MemoryErrorView::Lock { target, source } => {
            let a = "lock acquisition failed for "@ + target;
            holds_the_end("lock acquisition failed for "@, target);
            holds_still(a, ": "@, target);
            holds_still(a + ": "@, source, target);
            holds_the_end(a + ": "@, source);
        },
    }
}

} // verus!
