//! What a call of `tool_search` gives of what was asked for.
use vstd::prelude::*;

use crate::json::{JsonView, entry_push, printed};
use crate::mcp::client::ClientView;
use crate::mcp::deferred::{
    PolicyView, haystack, hits, matching, name_lines, ranking, searched, searches_miss_nothing,
    searches_rank, spec_of, terms_of, tool_named, tools_of_servers, tools_section,
};
use crate::mcp::tool::RemoteTool;
use crate::mcp::tool_search::{
    all_shown, candidates, each_trimmed, function_line, keyword_outcome, let_through, max_in,
    offered, search_outcome, search_schema, selected, selection_text,
};
use crate::text::{contains, join, occurs_at, quotes_escaped, split, starts_with, trim};
use crate::text_laws::{
    contains_somewhere, find_least, holds_still, holds_the_end, join_front,
};

verus! {

/// The name under which a tool is known.
pub open spec fn known_as(tool: RemoteTool) -> Seq<char> {
    "mcp__"@ + tool.server + "__"@ + tool.def.name
}

/// Whether a policy lets a name through: it is not denied, and where some are allowed it is
/// one of them.
pub open spec fn permitted(policy: Option<PolicyView>, name: Seq<char>) -> bool {
    match policy {
        None => true,
        Some(policy) => {
            &&& policy.allowed matches Some(list) ==> list.contains(name)
            &&& policy.denied matches Some(list) ==> !list.contains(name)
        },
    }
}

/// Whether a tool of the given name can be had: there is one, and it is permitted.
pub open spec fn available(
    tools: Seq<RemoteTool>,
    policy: Option<PolicyView>,
    name: Seq<char>,
) -> bool {
    permitted(policy, name) && exists|i: int|
        0 <= i < tools.len() && known_as(#[trigger] tools[i]) == name
}

/// Whether a tool is the first of its name.
pub open spec fn first_named(tools: Seq<RemoteTool>, i: int) -> bool {
    0 <= i < tools.len() && forall|k: int|
        0 <= k < i ==> known_as(#[trigger] tools[k]) != known_as(tools[i])
}

/// The line that shows a tool: its name, what it says of itself with its quotes escaped, and
/// its schema.
pub open spec fn line_of(tool: RemoteTool) -> Seq<char> {
    let description = match tool.def.description {
        Some(description) => description,
        None => Seq::empty(),
    };
    "<function>{\"name\": \""@ + known_as(tool) + "\", \"description\": \""@ + quotes_escaped(
        description,
    ) + "\", \"parameters\": "@ + printed(tool.def.input_schema) + "}</function>\n"@
}

/// A tool is found by its name where there is one of that name, and it is the first.
pub proof fn tools_are_found_by_name(tools: Seq<RemoteTool>, name: Seq<char>)
    ensures
        match tool_named(tools, name) {
            Some(tool) => exists|i: int|
                first_named(tools, i) && known_as(#[trigger] tools[i]) == name && tools[i] == tool,
            None => forall|i: int|
                0 <= i < tools.len() ==> known_as(#[trigger] tools[i]) != name,
        },
    decreases tools.len(),
{
    if tools.len() > 0 {
        let init = tools.drop_last();
        tools_are_found_by_name(init, name);
        match tool_named(init, name) {
            Some(tool) => {
                let i = choose|i: int|
                    first_named(init, i) && known_as(#[trigger] init[i]) == name && init[i] == tool;
                assert(tools[i] == tool);
                assert forall|k: int| 0 <= k < i implies known_as(#[trigger] tools[k]) != known_as(
                    tools[i],
                ) by {
                    assert(init[k] == tools[k]);
                }
                assert(first_named(tools, i));
            },
            None => {
                let n = tools.len() - 1;
                assert forall|k: int| 0 <= k < n implies known_as(#[trigger] tools[k]) != name by {
                    assert(init[k] == tools[k]);
                }
                if known_as(tools[n]) == name {
                    assert(first_named(tools, n));
                }
            },
        }
    }
}

/// What a selection by names comes to, name by name: every name that can be had is shown by
/// the line of the first tool of that name and is active behind the call; and a name is
/// reported missing exactly where it cannot be had.
pub proof fn selections_give_what_was_asked(
    tools: Seq<RemoteTool>,
    policy: Option<PolicyView>,
    names: Seq<Seq<char>>,
    active: Seq<Seq<char>>,
)
    ensures
        ({
            let shown = selected(tools, policy, names, active);
            &&& forall|k: int|
                0 <= k < names.len() && (#[trigger] names[k]).len() > 0 && available(
                    tools,
                    policy,
                    names[k],
                ) ==> (active.contains(names[k]) || shown.activated.contains(names[k])) && exists|
                    i: int,
                |
                    first_named(tools, i) && known_as(#[trigger] tools[i]) == names[k] && contains(
                        shown.lines,
                        line_of(tools[i]),
                    )
            &&& forall|k: int|
                0 <= k < names.len() && (#[trigger] names[k]).len() > 0 && !available(
                    tools,
                    policy,
                    names[k],
                ) ==> shown.missing.contains(names[k])
            &&& forall|k: int|
                0 <= k < shown.missing.len() ==> names.contains(#[trigger] shown.missing[k])
                    && !available(tools, policy, shown.missing[k])
            &&& forall|k: int|
                0 <= k < shown.activated.len() ==> names.contains(#[trigger] shown.activated[k])
                    && available(tools, policy, shown.activated[k]) && !active.contains(
                    shown.activated[k],
                )
        }),
    decreases names.len(),
{
    let shown = selected(tools, policy, names, active);
    if names.len() > 0 {
        let init = names.drop_last();
        let name = names.last();
        let before = selected(tools, policy, init, active);
        let n = names.len() - 1;
        selections_give_what_was_asked(tools, policy, init, active);
        tools_are_found_by_name(tools, name);
        assert(let_through(policy, name) == permitted(policy, name));
        assert(available(tools, policy, name) <==> let_through(policy, name) && tool_named(
            tools,
            name,
        ) is Some) by {
            match tool_named(tools, name) {
                Some(tool) => {
                    let i = choose|i: int|
                        first_named(tools, i) && known_as(#[trigger] tools[i]) == name && tools[i]
                            == tool;
                    assert(known_as(tools[i]) == name);
                },
                None => {},
            }
        }
        let extra = if name.len() > 0 && available(tools, policy, name) {
            let tool = tool_named(tools, name)->Some_0;
            let i = choose|i: int|
                first_named(tools, i) && known_as(#[trigger] tools[i]) == name && tools[i] == tool;
            assert(function_line(spec_of(tool)) == line_of(tools[i]));
            let extra = line_of(tool);
            holds_the_end(before.lines, extra);
            if !active.contains(name) {
                assert(shown.activated[before.activated.len() as int] == name);
            }
            extra
        } else {
            assert(before.lines + Seq::<char>::empty() =~= before.lines);
            Seq::empty()
        };
        assert(shown.lines == before.lines + extra);
        assert forall|k: int|
            0 <= k < names.len() && (#[trigger] names[k]).len() > 0 && available(
                tools,
                policy,
                names[k],
            ) implies (active.contains(names[k]) || shown.activated.contains(names[k])) && exists|
            i: int,
        |
            first_named(tools, i) && known_as(#[trigger] tools[i]) == names[k] && contains(
                shown.lines,
                line_of(tools[i]),
            ) by {
            if k < n {
                assert(init[k] == names[k]);
                let i = choose|i: int|
                    first_named(tools, i) && known_as(#[trigger] tools[i]) == names[k] && contains(
                        before.lines,
                        line_of(tools[i]),
                    );
                holds_still(before.lines, extra, line_of(tools[i]));
                assert(known_as(tools[i]) == names[k]);
                if before.activated.contains(names[k]) {
                    let m = choose|m: int|
                        0 <= m < before.activated.len() && before.activated[m] == names[k];
                    assert(shown.activated[m] == names[k]);
                }
            }
        }
        assert forall|k: int|
            0 <= k < names.len() && (#[trigger] names[k]).len() > 0 && !available(
                tools,
                policy,
                names[k],
            ) implies shown.missing.contains(names[k]) by {
            if k < n {
                assert(init[k] == names[k]);
                let m = choose|m: int|
                    0 <= m < before.missing.len() && before.missing[m] == names[k];
                assert(shown.missing[m] == names[k]);
            } else {
                assert(shown.missing[before.missing.len() as int] == name);
            }
        }
        assert forall|k: int| 0 <= k < shown.missing.len() implies names.contains(
            #[trigger] shown.missing[k],
        ) && !available(tools, policy, shown.missing[k]) by {
            if k < before.missing.len() {
                assert(shown.missing[k] == before.missing[k]);
                let m = choose|m: int| 0 <= m < init.len() && init[m] == before.missing[k];
                assert(names[m] == shown.missing[k]);
            } else {
                assert(names[n] == name);
            }
        }
        assert forall|k: int| 0 <= k < shown.activated.len() implies names.contains(
            #[trigger] shown.activated[k],
        ) && available(tools, policy, shown.activated[k]) && !active.contains(
            shown.activated[k],
        ) by {
            if k < before.activated.len() {
                assert(shown.activated[k] == before.activated[k]);
                let m = choose|m: int| 0 <= m < init.len() && init[m] == before.activated[k];
                assert(names[m] == shown.activated[k]);
            } else {
                assert(names[n] == name);
            }
        }
    }
}

/// The answer to a selection holds the lines of the tools that are shown, in one frame, and
/// tells behind it which names are missing, where any is.
pub proof fn selections_are_answered(
    tools: Seq<RemoteTool>,
    policy: Option<PolicyView>,
    names: Seq<Seq<char>>,
    active: Seq<Seq<char>>,
)
    ensures
        ({
            let shown = selected(tools, policy, names, active);
            let answer = selection_text(shown);
            &&& starts_with(shown.lines, "<functions>\n"@)
            &&& shown.missing.len() == 0 ==> answer == shown.lines + "</functions>\n"@
            &&& shown.missing.len() > 0 ==> answer == shown.lines + "</functions>\n"@
                + "\nNot found: "@ + join(shown.missing, ", "@)
        }),
    decreases names.len(),
{
    let head = "<functions>\n"@;
    if names.len() == 0 {
        assert(head.take(head.len() as int) =~= head);
    } else {
        selections_are_answered(tools, policy, names.drop_last(), active);
        let before = selected(tools, policy, names.drop_last(), active).lines;
        let now = selected(tools, policy, names, active).lines;
        assert(now.take(head.len() as int) =~= before.take(head.len() as int));
    }
}

proof fn names_come_apart(names: Seq<Seq<char>>)
    requires
        names.len() > 0,
        forall|i: int| 0 <= i < names.len() ==> !contains(#[trigger] names[i], ","@),
    ensures
        split(join(names, ","@), ","@) == names,
    decreases names.len(),
{
    reveal_strlit(",");
    let sep = ","@;
    if names.len() == 1 {
        assert(join(names, sep) == names[0]);
        assert(split(names[0], sep) =~= names);
    } else {
        let tail = names.skip(1);
        assert forall|i: int| 0 <= i < tail.len() implies !contains(#[trigger] tail[i], sep) by {
            assert(tail[i] == names[i + 1]);
        }
        names_come_apart(tail);
        join_front(names, sep);
        let rest = join(tail, sep);
        let whole = names[0] + sep + rest;
        let n = names[0].len() as int;
        contains_somewhere(names[0], sep);
        assert(whole.subrange(n, n + 1) =~= sep);
        assert forall|i: int| 0 <= i < n implies !#[trigger] occurs_at(whole, sep, i) by {
            if occurs_at(whole, sep, i) {
                assert(whole.subrange(i, i + 1) =~= names[0].subrange(i, i + 1));
                assert(occurs_at(names[0], sep, i));
            }
        }
        assert(occurs_at(whole, sep, n));
        find_least(whole, sep, 0, n);
        assert(whole.take(n) =~= names[0]);
        assert(whole.skip(n + 1) =~= rest);
        assert(seq![names[0]] + tail =~= names);
    }
}

/// A query of `select:` and names with commas between them selects the tools of those names.
pub proof fn selecting_queries_select(
    tools: Seq<RemoteTool>,
    policy: Option<PolicyView>,
    args: JsonView,
    active: Seq<Seq<char>>,
    names: Seq<Seq<char>>,
)
    requires
        names.len() > 0,
        forall|i: int|
            0 <= i < names.len() ==> !contains(#[trigger] names[i], ","@) && trim(names[i])
                == names[i],
        args.at("query"@) == JsonView::Text("select:"@ + join(names, ","@)),
        trim("select:"@ + join(names, ","@)) == "select:"@ + join(names, ","@),
    ensures
        ({
            let outcome = search_outcome(tools, policy, args, active);
            let shown = selected(tools, policy, names, active);
            &&& outcome.0
            &&& outcome.1 == selection_text(shown)
            &&& outcome.2 == shown.activated
        }),
{
    reveal_strlit("select:");
    names_come_apart(names);
    let query = "select:"@ + join(names, ","@);
    assert(query.take(7) =~= "select:"@);
    assert(query.skip(7) =~= join(names, ","@));
    assert(each_trimmed(names) =~= names);
}

/// A call without a query fails and activates nothing; with one it succeeds. Five results
/// are given unless another number is asked for.
pub proof fn calls_want_a_query(
    tools: Seq<RemoteTool>,
    policy: Option<PolicyView>,
    args: JsonView,
    active: Seq<Seq<char>>,
)
    ensures
        ({
            let outcome = search_outcome(tools, policy, args, active);
            let asked = match args.at("query"@) {
                JsonView::Text(t) => trim(t).len() > 0,
                _ => false,
            };
            &&& outcome.0 <==> asked
            &&& !asked ==> outcome.1 == "query parameter is required"@ && outcome.2.len() == 0
        }),
        args.at("max_results"@).unsigned() is None ==> max_in(args) == 5,
        args.at("max_results"@).unsigned() matches Some(n) ==> n <= usize::MAX ==> max_in(args) == n,
{
}

/// A query that does not begin with `select:` searches by its words.
pub proof fn other_queries_search(
    tools: Seq<RemoteTool>,
    policy: Option<PolicyView>,
    args: JsonView,
    active: Seq<Seq<char>>,
    query: Seq<char>,
)
    requires
        args.at("query"@) == JsonView::Text(query),
        trim(query).len() > 0,
        !starts_with(trim(query), "select:"@),
    ensures
        ({
            let (answer, activated) = keyword_outcome(
                tools,
                policy,
                trim(query),
                max_in(args),
                active,
            );
            search_outcome(tools, policy, args, active) == (true, answer, activated)
        }),
{
}

proof fn lines_are_shown(tools: Seq<RemoteTool>, active: Seq<Seq<char>>)
    ensures
        ({
            let shown = all_shown(tools, active);
            &&& forall|k: int|
                0 <= k < tools.len() ==> contains(shown.lines, line_of(#[trigger] tools[k])) && (
                active.contains(known_as(tools[k])) || shown.activated.contains(
                    known_as(tools[k]),
                ))
            &&& forall|k: int|
                0 <= k < shown.activated.len() ==> !active.contains(
                    #[trigger] shown.activated[k],
                ) && exists|i: int|
                    0 <= i < tools.len() && known_as(#[trigger] tools[i]) == shown.activated[k]
        }),
    decreases tools.len(),
{
    let shown = all_shown(tools, active);
    if tools.len() > 0 {
        let init = tools.drop_last();
        let last = tools.last();
        let before = all_shown(init, active);
        lines_are_shown(init, active);
        assert(function_line(spec_of(last)) == line_of(last));
        holds_the_end(before.lines, line_of(last));
        if !active.contains(known_as(last)) {
            assert(shown.activated[before.activated.len() as int] == known_as(last));
        }
        assert forall|k: int| 0 <= k < tools.len() implies contains(
            shown.lines,
            line_of(#[trigger] tools[k]),
        ) && (active.contains(known_as(tools[k])) || shown.activated.contains(
            known_as(tools[k]),
        )) by {
            if k < init.len() {
                assert(init[k] == tools[k]);
                holds_still(before.lines, line_of(last), line_of(tools[k]));
                if before.activated.contains(known_as(tools[k])) {
                    let m = choose|m: int|
                        0 <= m < before.activated.len() && before.activated[m] == known_as(
                            tools[k],
                        );
                    assert(shown.activated[m] == known_as(tools[k]));
                }
            }
        }
        assert forall|k: int| 0 <= k < shown.activated.len() implies !active.contains(
            #[trigger] shown.activated[k],
        ) && exists|i: int|
            0 <= i < tools.len() && known_as(#[trigger] tools[i]) == shown.activated[k] by {
            if k < before.activated.len() {
                assert(shown.activated[k] == before.activated[k]);
                let i = choose|i: int|
                    0 <= i < init.len() && known_as(#[trigger] init[i]) == before.activated[k];
                assert(known_as(tools[i]) == shown.activated[k]);
            } else {
                assert(known_as(tools[tools.len() - 1]) == shown.activated[k]);
            }
        }
    }
}

/// Whether a tool is among the first `k`.
spec fn among(found: Seq<RemoteTool>, k: int, tool: RemoteTool) -> bool {
    exists|j: int| 0 <= j < k && #[trigger] found[j] == tool
}

proof fn offers_come_first(
    found: Seq<RemoteTool>,
    policy: Option<PolicyView>,
    max: nat,
    k: int,
)
    requires
        0 <= k < found.len(),
        permitted(policy, known_as(found[k])),
        !offered(found, policy, max).contains(found[k]),
    ensures
        offered(found, policy, max).len() >= max,
        forall|m: int|
            0 <= m < offered(found, policy, max).len() ==> among(
                found,
                k,
                #[trigger] offered(found, policy, max)[m],
            ),
    decreases found.len(),
{
    let out = offered(found, policy, max);
    let init = found.drop_last();
    let before = offered(init, policy, max);
    let last = found.last();
    assert(let_through(policy, last.name()) == permitted(policy, known_as(last)));
    if k < init.len() {
        assert(init[k] == found[k]);
        if before.contains(found[k]) {
            let m = choose|m: int| 0 <= m < before.len() && before[m] == found[k];
            assert(out[m] == found[k]);
        }
        offers_come_first(init, policy, max, k);
    } else {
        if before.len() < max {
            assert(out[before.len() as int] == last);
        }
        offers_were_found(init, policy, max);
    }
    assert forall|m: int| 0 <= m < out.len() implies among(found, k, #[trigger] out[m]) by {
        assert(out[m] == before[m]);
        assert(among(init, k, before[m]));
        let j = choose|j: int| 0 <= j < k && #[trigger] init[j] == before[m];
        assert(found[j] == out[m]);
    }
}

proof fn offers_were_found(found: Seq<RemoteTool>, policy: Option<PolicyView>, max: nat)
    ensures
        forall|m: int|
            0 <= m < offered(found, policy, max).len() ==> among(
                found,
                found.len() as int,
                #[trigger] offered(found, policy, max)[m],
            ),
        offered(found, policy, max).len() <= max,
        policy is None && found.len() <= max ==> offered(found, policy, max) == found,
    decreases found.len(),
{
    if found.len() == 0 {
        assert(found =~= Seq::empty());
    } else {
        let init = found.drop_last();
        let before = offered(init, policy, max);
        let out = offered(found, policy, max);
        offers_were_found(init, policy, max);
        assert forall|m: int| 0 <= m < out.len() implies among(
            found,
            found.len() as int,
            #[trigger] out[m],
        ) by {
            if m < before.len() {
                assert(out[m] == before[m]);
                assert(among(init, init.len() as int, before[m]));
                let j = choose|j: int| 0 <= j < init.len() && #[trigger] init[j] == before[m];
                assert(found[j] == out[m]);
            } else {
                assert(found[found.len() - 1] == out[m]);
            }
        }
        assert(init.push(found.last()) =~= found);
    }
}

/// A search by words shows the best: no more tools than asked for, each permitted and with a
/// word of the query in it; and where one that is permitted and has a word in it is left out,
/// as many as asked for are shown, and none of them has fewer words in it. Every tool that is
/// shown has its line in the answer and is active behind the call.
pub proof fn searches_show_the_best(
    tools: Seq<RemoteTool>,
    policy: Option<PolicyView>,
    query: Seq<char>,
    max: nat,
    active: Seq<Seq<char>>,
    tool: RemoteTool,
)
    requires
        terms_of(query).len() <= usize::MAX,
        tools.len() <= usize::MAX,
    ensures
        ({
            let found = candidates(tools, policy, query, max);
            let best = offered(found, policy, max);
            let (answer, activated) = keyword_outcome(tools, policy, query, max, active);
            let words = |t: RemoteTool| hits(haystack(t), terms_of(query));
            &&& best.len() <= max
            &&& forall|k: int|
                0 <= k < best.len() ==> tools.contains(#[trigger] best[k]) && words(best[k]) > 0
                    && permitted(policy, known_as(best[k])) && contains(answer, line_of(best[k]))
                    && (active.contains(known_as(best[k])) || activated.contains(
                    known_as(best[k]),
                ))
            &&& forall|k: int|
                0 <= k < activated.len() ==> !active.contains(#[trigger] activated[k]) && exists|
                    i: int,
                |
                    0 <= i < best.len() && known_as(#[trigger] best[i]) == activated[k]
            &&& tools.contains(tool) && words(tool) > 0 && permitted(policy, known_as(tool))
                && !best.contains(tool) ==> best.len() == max && forall|k: int|
                0 <= k < best.len() ==> words(#[trigger] best[k]) >= words(tool)
        }),
{
    let words = |t: RemoteTool| hits(haystack(t), terms_of(query));
    let limit = if policy is Some {
        usize::MAX as nat
    } else {
        max
    };
    let found = candidates(tools, policy, query, max);
    let best = offered(found, policy, max);
    let (answer, activated) = keyword_outcome(tools, policy, query, max, active);
    searches_rank(tools, query, limit);
    offers_were_found(found, policy, max);
    lines_are_shown(best, active);
    let shown = all_shown(best, active);
    assert forall|k: int| 0 <= k < best.len() implies tools.contains(#[trigger] best[k]) && words(
        best[k],
    ) > 0 && permitted(policy, known_as(best[k])) && contains(answer, line_of(best[k])) && (
    active.contains(known_as(best[k])) || activated.contains(known_as(best[k]))) by {
        assert(among(found, found.len() as int, best[k]));
        let j = choose|j: int| 0 <= j < found.len() && #[trigger] found[j] == best[k];
        assert(found[j] == best[k]);
        offers_are_permitted(found, policy, max, k);
        holds_still(shown.lines, "</functions>\n"@, line_of(best[k]));
    }
    if found.len() == 0 {
        assert(best =~= Seq::empty());
    }
    if tools.contains(tool) && words(tool) > 0 && permitted(policy, known_as(tool))
        && !best.contains(tool) {
        let all = searched(tools, query, tools.len());
        searches_miss_nothing(tools, query, tools.len(), tool);
        searches_rank(tools, query, tools.len());
        let at = choose|at: int| 0 <= at < all.len() && all[at] == tool;
        rankings_are_cut(tools, query, limit);
        if at < found.len() {
            assert(found[at] == tool);
            offers_come_first(found, policy, max, at);
            assert forall|k: int| 0 <= k < best.len() implies words(#[trigger] best[k]) >= words(
                tool,
            ) by {
                assert(among(found, at, best[k]));
                let j = choose|j: int| 0 <= j < at && #[trigger] found[j] == best[k];
                assert(hits(haystack(found[j]), terms_of(query)) >= hits(
                    haystack(found[at]),
                    terms_of(query),
                ));
            }
        } else {
            assert(policy is None);
            assert(found.len() == max);
            assert(best == found);
            assert forall|k: int| 0 <= k < best.len() implies words(#[trigger] best[k]) >= words(
                tool,
            ) by {
                assert(all[k] == found[k]);
                assert(hits(haystack(all[k]), terms_of(query)) >= hits(
                    haystack(all[at]),
                    terms_of(query),
                ));
            }
        }
    }
}

proof fn offers_are_permitted(
    found: Seq<RemoteTool>,
    policy: Option<PolicyView>,
    max: nat,
    k: int,
)
    requires
        0 <= k < offered(found, policy, max).len(),
    ensures
        permitted(policy, known_as(offered(found, policy, max)[k])),
    decreases found.len(),
{
    if found.len() > 0 {
        let before = offered(found.drop_last(), policy, max);
        if k < before.len() {
            offers_are_permitted(found.drop_last(), policy, max, k);
        } else {
            assert(let_through(policy, found.last().name()) == permitted(
                policy,
                known_as(found.last()),
            ));
        }
    }
}

proof fn rankings_are_cut(tools: Seq<RemoteTool>, query: Seq<char>, limit: nat)
    ensures
        ({
            let all = searched(tools, query, tools.len());
            let cut = searched(tools, query, limit);
            &&& cut.len() <= all.len()
            &&& forall|k: int| 0 <= k < cut.len() ==> all[k] == #[trigger] cut[k]
            &&& cut.len() < all.len() ==> cut.len() == limit
            &&& all.len() <= tools.len()
        }),
{
    let ranked = ranking(tools, terms_of(query));
    matches_are_few(tools, terms_of(query));
    crate::order::scores_are_ordered(
        crate::mcp::deferred::scores(matching(tools, terms_of(query)), terms_of(query)),
    );
    crate::order::ordered_is_sorted(
        matching(tools, terms_of(query)).len(),
        crate::order::by_score(
            crate::mcp::deferred::scores(matching(tools, terms_of(query)), terms_of(query)),
        ),
    );
    assert(ranked.len() <= tools.len());
}

proof fn matches_are_few(tools: Seq<RemoteTool>, terms: Seq<Seq<char>>)
    ensures
        matching(tools, terms).len() <= tools.len(),
    decreases tools.len(),
{
    if tools.len() > 0 {
        matches_are_few(tools.drop_last(), terms);
    }
}

/// The words of a query that stand in a tool are those that stand in its name or in what it
/// says of itself, in small letters.
pub proof fn words_are_counted(tool: RemoteTool, terms: Seq<Seq<char>>, term: Seq<char>)
    ensures
        hits(haystack(tool), Seq::empty()) == 0,
        hits(haystack(tool), terms.push(term)) == hits(haystack(tool), terms) + (if contains(
            crate::text::lowercase(known_as(tool)) + " "@ + crate::text::lowercase(
                tool.description(),
            ),
            term,
        ) {
            1nat
        } else {
            0
        }),
{
    assert(terms.push(term).drop_last() =~= terms);
}

/// Every tool of every server is among the tools, and there is no other.
pub proof fn all_tools_of_all_servers(clients: Seq<ClientView>, tool: RemoteTool)
    ensures
        tools_of_servers(clients).contains(tool) <==> exists|i: int, j: int|
            #![trigger clients[i].tools[j]]
            0 <= i < clients.len() && 0 <= j < clients[i].tools.len() && tool == (RemoteTool {
                server: clients[i].server_name,
                reconnects: clients[i].reconnects,
                def: clients[i].tools[j],
            }),
    decreases clients.len(),
{
    if clients.len() > 0 {
        let init = clients.drop_last();
        let last = clients.last();
        let n = clients.len() - 1;
        all_tools_of_all_servers(init, tool);
        let before = tools_of_servers(init);
        let all = tools_of_servers(clients);
        if all.contains(tool) {
            let k = choose|k: int| 0 <= k < all.len() && all[k] == tool;
            if k < before.len() {
                assert(before[k] == tool);
                let (i, j) = choose|i: int, j: int|
                    #![trigger init[i].tools[j]]
                    0 <= i < init.len() && 0 <= j < init[i].tools.len() && tool == (RemoteTool {
                        server: init[i].server_name,
                        reconnects: init[i].reconnects,
                        def: init[i].tools[j],
                    });
                assert(clients[i].tools[j] == init[i].tools[j]);
            } else {
                let j = k - before.len();
                assert(clients[n].tools[j] == last.tools[j]);
            }
        }
        if exists|i: int, j: int|
            #![trigger clients[i].tools[j]]
            0 <= i < clients.len() && 0 <= j < clients[i].tools.len() && tool == (RemoteTool {
                server: clients[i].server_name,
                reconnects: clients[i].reconnects,
                def: clients[i].tools[j],
            }) {
            let (i, j) = choose|i: int, j: int|
                #![trigger clients[i].tools[j]]
                0 <= i < clients.len() && 0 <= j < clients[i].tools.len() && tool == (RemoteTool {
                    server: clients[i].server_name,
                    reconnects: clients[i].reconnects,
                    def: clients[i].tools[j],
                });
            if i < n {
                assert(init[i].tools[j] == clients[i].tools[j]);
                assert(before.contains(tool));
                let k = choose|k: int| 0 <= k < before.len() && before[k] == tool;
                assert(all[k] == tool);
            } else {
                assert(all[before.len() + j] == tool);
            }
        }
    }
}

/// The section of a system prompt that lists the tools has a line for each name, in their
/// order, and is empty where there is none.
pub proof fn sections_list_every_name(names: Seq<Seq<char>>, i: int)
    requires
        0 <= i < names.len(),
    ensures
        contains(tools_section(names), "- "@ + names[i] + "\n"@),
        name_lines(names.take(i + 1)) == name_lines(names.take(i)) + ("- "@ + names[i] + "\n"@),
        tools_section(Seq::empty()) == Seq::<char>::empty(),
{
    let more = names.take(i + 1);
    assert(more.drop_last() =~= names.take(i));
    assert(name_lines(more) =~= name_lines(names.take(i)) + ("- "@ + names[i] + "\n"@));
    let line = "- "@ + names[i] + "\n"@;
    let head = crate::mcp::deferred::SECTION_HEAD@;
    let tail = crate::mcp::deferred::SECTION_TAIL@;
    holds_the_end(name_lines(names.take(i)), line);
    lines_go_on(names, i + 1, line);
    let lines = name_lines(names);
    contains_somewhere(lines, line);
    let k = choose|k: int| #[trigger] occurs_at(lines, line, k);
    let whole = head + lines + tail;
    let n = head.len() as int;
    assert(whole.subrange(n + k, n + k + line.len()) =~= lines.subrange(k, k + line.len()));
    assert(occurs_at(whole, line, n + k));
    contains_somewhere(whole, line);
}

proof fn lines_go_on(names: Seq<Seq<char>>, k: int, line: Seq<char>)
    requires
        0 <= k <= names.len(),
        contains(name_lines(names.take(k)), line),
    ensures
        contains(name_lines(names), line),
    decreases names.len() - k,
{
    if k < names.len() {
        let more = names.take(k + 1);
        assert(more.drop_last() =~= names.take(k));
        let extra = "- "@ + names[k] + "\n"@;
        assert(name_lines(more) =~= name_lines(names.take(k)) + extra);
        holds_still(name_lines(names.take(k)), extra, line);
        lines_go_on(names, k + 1, line);
    } else {
        assert(names.take(k) =~= names);
    }
}

/// The search tells a model that it takes a query, which it needs, and how many results
/// there may be.
pub proof fn the_search_says_what_it_takes()
    ensures
        ({
            let schema = search_schema();
            &&& schema.at("type"@) == JsonView::Text("object"@)
            &&& schema.at("properties"@).at("query"@).at("type"@) == JsonView::Text("string"@)
            &&& schema.at("properties"@).at("max_results"@).at("type"@) == JsonView::Text(
                "number"@,
            )
            &&& schema.at("required"@) == JsonView::Array(seq![JsonView::Text("query"@)])
        }),
{
    broadcast use entry_push;

    reveal_strlit("type");
    reveal_strlit("properties");
    reveal_strlit("required");
    reveal_strlit("query");
    reveal_strlit("max_results");
    reveal_strlit("description");
    assert("type"@.len() == 4 && "properties"@.len() == 10 && "required"@.len() == 8);
    assert("query"@.len() == 5 && "max_results"@.len() == 11 && "description"@.len() == 11);
    assert(Seq::empty().push(JsonView::Text("query"@)) =~= seq![JsonView::Text("query"@)]);
}

} // verus!
