//! Threat scanner for memory entries.
//!
//! Entries are put into the system prompt of the next session, so nothing may be written
//! that would reconfigure the agent or give secrets away on its next start: invisible
//! characters, injected instructions, shell lines that send out or read secrets, and ways
//! to persist.
use vstd::prelude::*;

use crate::text::{chars_of, code_point, hex_of, hex_padded, labelled};

verus! {

/// What blocked an entry.
#[derive(Debug, PartialEq, Eq)]
pub struct ThreatHit {
    pub kind: &'static str,
    pub detail: String,
}

/// The model of a hit.
pub ghost struct HitView {
    pub kind: Seq<char>,
    pub detail: Seq<char>,
}

impl DeepView for ThreatHit {
    type V = HitView;

    open spec fn deep_view(&self) -> HitView {
        HitView { kind: self.kind@, detail: self.detail@ }
    }
}

/// Invisible characters that have no place in prose.
pub open spec fn is_invisible(c: char) -> bool {
    ||| '\u{200b}' <= c <= '\u{200d}'
    ||| c == '\u{2060}'
    ||| c == '\u{feff}'
    ||| '\u{202a}' <= c <= '\u{202e}'
}

/// The first invisible character of a text.
pub open spec fn first_invisible(s: Seq<char>) -> Option<char>
    decreases s.len(),
{
    if s.len() == 0 {
        None
    } else if is_invisible(s[0]) {
        Some(s[0])
    } else {
        first_invisible(s.skip(1))
    }
}

/// The first invisible character of a text.
pub fn first_invisible_char(s: &str) -> (r: Option<char>)
    ensures
        r == first_invisible(s@),
{
    let c = chars_of(s);
    let mut i: usize = 0;
    assert(s@.skip(0) =~= s@);
    while i < c.len()
        invariant
            i <= c@.len(),
            c@ == s@,
            first_invisible(s@) == first_invisible(s@.skip(i as int)),
        decreases c@.len() - i,
    {
        let x = c[i];
        if ('\u{200b}' <= x && x <= '\u{200d}') || x == '\u{2060}' || x == '\u{feff}' || (
        '\u{202a}' <= x && x <= '\u{202e}') {
            return Some(x);
        }
        assert(s@.skip(i as int).skip(1) =~= s@.skip(i + 1));
        i = i + 1;
    }
    None
}

/// What the `regex` crate says of a pattern and a text: whether the pattern matches
/// anywhere in the text, or nothing where the pattern does not compile.
pub uninterp spec fn regex_match(pattern: Seq<char>, text: Seq<char>) -> Option<bool>;

/// Calls `regex::Regex::new` and, on what it compiled, `Regex::is_match`. The contract
/// names the answer.
#[verifier::external_body]
fn matches_regex(pattern: &str, text: &str) -> (r: Option<bool>)
    ensures
        r == regex_match(pattern@, text@),
{
    regex::Regex::new(pattern).ok().map(|re| re.is_match(text))
}

/// How many patterns there are.
pub const PATTERN_COUNT: usize = 13;

/// The kind of threat that the pattern at `i` stands for.
pub fn pattern_kind(i: usize) -> (r: &'static str)
    requires
        i < PATTERN_COUNT,
    ensures
        r@ == kind_at(i as int),
{
    match i {
        0 => "prompt_injection",
        1 => "role_hijack",
        2 => "deception_hide",
        3 => "sys_prompt_override",
        4 => "disregard_rules",
        5 => "bypass_restrictions",
        6 => "exfil_curl",
        7 => "exfil_wget",
        8 => "read_secrets",
        9 => "ssh_backdoor",
        10 => "ssh_dir",
        11 => "runic_env",
        _ => "hermes_env",
    }
}

/// The kind of threat that the pattern at `i` stands for.
pub open spec fn kind_at(i: int) -> Seq<char> {
    if i == 0 {
        "prompt_injection"@
    } else if i == 1 {
        "role_hijack"@
    } else if i == 2 {
        "deception_hide"@
    } else if i == 3 {
        "sys_prompt_override"@
    } else if i == 4 {
        "disregard_rules"@
    } else if i == 5 {
        "bypass_restrictions"@
    } else if i == 6 {
        "exfil_curl"@
    } else if i == 7 {
        "exfil_wget"@
    } else if i == 8 {
        "read_secrets"@
    } else if i == 9 {
        "ssh_backdoor"@
    } else if i == 10 {
        "ssh_dir"@
    } else if i == 11 {
        "runic_env"@
    } else {
        "hermes_env"@
    }
}

/// The pattern at `i`.
pub open spec fn pattern_at(i: int) -> Seq<char> {
    if i == 0 {
        "(?i)ignore\\s+(previous|all|above|prior)\\s+instructions"@
    } else if i == 1 {
        "(?i)\\byou\\s+are\\s+now\\b"@
    } else if i == 2 {
        "(?i)do\\s+not\\s+tell\\s+the\\s+user"@
    } else if i == 3 {
        "(?i)system\\s+prompt\\s+override"@
    } else if i == 4 {
        "(?i)disregard\\s+(your|all|any)\\s+(instructions|rules|guidelines)"@
    } else if i == 5 {
        "(?i)act\\s+as\\s+(if|though)\\s+you\\s+(have\\s+no|don'?t\\s+have)\\s+(restrictions|limits|rules)"@
    } else if i == 6 {
        "(?i)curl\\b[^\\n]*\\$\\{?\\w*(KEY|TOKEN|SECRET|PASSWORD|CREDENTIAL|API)"@
    } else if i == 7 {
        "(?i)wget\\b[^\\n]*\\$\\{?\\w*(KEY|TOKEN|SECRET|PASSWORD|CREDENTIAL|API)"@
    } else if i == 8 {
        "(?i)cat\\b[^\\n]*(\\.env|credentials|\\.netrc|\\.pgpass|\\.npmrc|\\.pypirc)"@
    } else if i == 9 {
        "authorized_keys"@
    } else if i == 10 {
        "(?i)(\\$HOME|~)/\\.ssh"@
    } else if i == 11 {
        "(?i)(\\$HOME|~)/\\.runic/\\.env"@
    } else {
        "(?i)(\\$HOME|~)/\\.hermes/\\.env"@
    }
}

/// The pattern at `i`, in the syntax of the `regex` crate.
pub fn pattern(i: usize) -> (r: &'static str)
    requires
        i < PATTERN_COUNT,
    ensures
        r@ == pattern_at(i as int),
{
    match i {
        0 => "(?i)ignore\\s+(previous|all|above|prior)\\s+instructions",
        1 => "(?i)\\byou\\s+are\\s+now\\b",
        2 => "(?i)do\\s+not\\s+tell\\s+the\\s+user",
        3 => "(?i)system\\s+prompt\\s+override",
        4 => "(?i)disregard\\s+(your|all|any)\\s+(instructions|rules|guidelines)",
        5 => "(?i)act\\s+as\\s+(if|though)\\s+you\\s+(have\\s+no|don'?t\\s+have)\\s+(restrictions|limits|rules)",
        6 => "(?i)curl\\b[^\\n]*\\$\\{?\\w*(KEY|TOKEN|SECRET|PASSWORD|CREDENTIAL|API)",
        7 => "(?i)wget\\b[^\\n]*\\$\\{?\\w*(KEY|TOKEN|SECRET|PASSWORD|CREDENTIAL|API)",
        8 => "(?i)cat\\b[^\\n]*(\\.env|credentials|\\.netrc|\\.pgpass|\\.npmrc|\\.pypirc)",
        9 => "authorized_keys",
        10 => "(?i)(\\$HOME|~)/\\.ssh",
        11 => "(?i)(\\$HOME|~)/\\.runic/\\.env",
        _ => "(?i)(\\$HOME|~)/\\.hermes/\\.env",
    }
}

/// The verdict on a text of which `matched` says which patterns match it: an invisible
/// character is reported first, then the first pattern that matches.
pub open spec fn verdict(content: Seq<char>, matched: Seq<bool>) -> Result<(), HitView> {
    match first_invisible(content) {
        Some(c) => Err(
            HitView { kind: "invisible_unicode"@, detail: "U+"@ + hex_padded(c as nat, 4, true) },
        ),
        None => first_match(matched, 0),
    }
}

/// The first match at or behind `i`.
pub open spec fn first_match(matched: Seq<bool>, i: int) -> Result<(), HitView>
    decreases matched.len() - i,
{
    if i < 0 || i >= matched.len() {
        Ok(())
    } else if matched[i] {
        Err(HitView { kind: kind_at(i), detail: Seq::empty() })
    } else {
        first_match(matched, i + 1)
    }
}

/// Which patterns match a text.
pub open spec fn matched_patterns(content: Seq<char>) -> Seq<bool> {
    Seq::new(
        PATTERN_COUNT as nat,
        |i: int| regex_match(pattern_at(i), content) == Some(true),
    )
}

/// The verdict on a text of which `matched` says which patterns match it.
pub fn judge(content: &str, matched: &Vec<bool>) -> (r: Result<(), ThreatHit>)
    requires
        matched@.len() == PATTERN_COUNT,
    ensures
        match r {
            Ok(_) => verdict(content@, matched@) == Ok::<(), HitView>(()),
            Err(hit) => verdict(content@, matched@) == Err::<(), HitView>(hit.deep_view()),
        },
{
    match first_invisible_char(content) {
        Some(c) => {
            return Err(
                ThreatHit {
                    kind: "invisible_unicode",
                    detail: labelled("U+", hex_of(code_point(c) as u64, 4, true).as_str()),
                },
            );
        },
        None => {},
    }
    let mut i: usize = 0;
    while i < matched.len()
        invariant
            i <= matched@.len(),
            matched@.len() == PATTERN_COUNT,
            verdict(content@, matched@) == first_match(matched@, i as int),
        decreases matched@.len() - i,
    {
        if matched[i] {
            return Err(ThreatHit { kind: pattern_kind(i), detail: String::new() });
        }
        i = i + 1;
    }
    Ok(())
}

/// Scans a text. `Ok` means that it is safe to keep.
pub fn scan(content: &str) -> (r: Result<(), ThreatHit>)
    ensures
        match r {
            Ok(_) => verdict(content@, matched_patterns(content@)) == Ok::<(), HitView>(()),
            Err(hit) => verdict(content@, matched_patterns(content@)) == Err::<(), HitView>(
                hit.deep_view(),
            ),
        },
{
    let mut matched: Vec<bool> = Vec::new();
    let mut i: usize = 0;
    while i < PATTERN_COUNT
        invariant
            i <= PATTERN_COUNT,
            matched@ =~= matched_patterns(content@).take(i as int),
        decreases PATTERN_COUNT - i,
    {
        let hit = match matches_regex(pattern(i), content) {
            Some(hit) => hit,
            None => false,
        };
        matched.push(hit);
        i = i + 1;
    }
    assert(matched@ =~= matched_patterns(content@));
    judge(content, &matched)
}

/// A text is kept only where it holds no invisible character and no pattern matches it,
/// and every such text is kept.
pub proof fn kept_texts_are_clean(content: Seq<char>)
    ensures
        verdict(content, matched_patterns(content)) is Ok <==> first_invisible(content) is None && (
        forall|i: int|
            0 <= i < PATTERN_COUNT ==> #[trigger] regex_match(pattern_at(i), content) != Some(true)),
{
    first_match_finds(matched_patterns(content), 0);
    let m = matched_patterns(content);
    if first_invisible(content) is None {
        if first_match(m, 0) is Ok {
            assert forall|i: int| 0 <= i < PATTERN_COUNT implies #[trigger] regex_match(
                pattern_at(i),
                content,
            ) != Some(true) by {
                assert(!m[i]);
            }
        } else {
            let k = choose|k: int| 0 <= k < m.len() && #[trigger] m[k];
            assert(regex_match(pattern_at(k), content) == Some(true));
        }
    }
}

proof fn first_match_finds(matched: Seq<bool>, i: int)
    requires
        0 <= i <= matched.len(),
    ensures
        first_match(matched, i) is Ok <==> (forall|k: int|
            i <= k < matched.len() ==> !#[trigger] matched[k]),
        first_match(matched, i) is Err ==> (exists|k: int|
            i <= k < matched.len() && #[trigger] matched[k]),
    decreases matched.len() - i,
{
    if i < matched.len() {
        first_match_finds(matched, i + 1);
    }
}

} // verus!
