//! The `tool_search` tool: finds tools, shows their schemas and activates them.
use vstd::prelude::*;

use crate::json::{
    Json, JsonView, array, empty_fields, no_fields, object, printed, put, text,
};
use crate::mcp::deferred::{
    DeferredMcpToolSet, PolicyView, ToolAccessPolicy, searched, spec_of, tool_allowed, tool_named,
};
use crate::mcp::tool::RemoteTool;
use crate::text::{
    escape_quotes, join, joined, labelled, pieces, push_to, quotes_escaped, same, split,
    starts_with, strip_prefix, trim, trimmed,
};
use crate::tool::{SpecView, ToolResult, ToolSpec};

verus! {

pub const DEFAULT_MAX_RESULTS: usize = 5;

/// What the key of an activated tool begins with in the state of a conversation.
pub const ACTIVATED_KEY_PREFIX: &'static str = "tool-search/activated/";

/// The key under which a conversation records that a tool is active.
pub fn activated_key(name: &str) -> (r: String)
    ensures
        r@ == ACTIVATED_KEY_PREFIX@ + name@,
{
    labelled(ACTIVATED_KEY_PREFIX, name)
}

/// The `tool_search` tool.
#[derive(Debug)]
pub struct ToolSearchTool {
    pub deferred: DeferredMcpToolSet,
    pub policy: Option<ToolAccessPolicy>,
}

/// What a search comes to: the answer, and the tools that become active.
#[derive(Debug)]
pub struct SearchOutcome {
    pub result: ToolResult,
    pub activated: Vec<String>,
}

/// The line that shows a tool.
pub open spec fn function_line(spec: SpecView) -> Seq<char> {
    "<function>{\"name\": \""@ + spec.name + "\", \"description\": \""@ + quotes_escaped(
        spec.description,
    ) + "\", \"parameters\": "@ + printed(spec.parameters) + "}</function>\n"@
}

/// Shown tools and activated ones so far.
pub ghost struct Shown {
    pub lines: Seq<char>,
    pub missing: Seq<Seq<char>>,
    pub activated: Seq<Seq<char>>,
}

/// Nothing shown.
pub open spec fn nothing_shown() -> Shown {
    Shown { lines: "<functions>\n"@, missing: Seq::empty(), activated: Seq::empty() }
}

/// The tools with one more shown; it becomes active unless it is.
pub open spec fn show(
    shown: Shown,
    spec: SpecView,
    name: Seq<char>,
    active: Seq<Seq<char>>,
) -> Shown {
    Shown {
        lines: shown.lines + function_line(spec),
        missing: shown.missing,
        activated: if active.contains(name) {
            shown.activated
        } else {
            shown.activated.push(name)
        },
    }
}

/// Whether a policy lets a tool through; all are let through where there is none.
pub open spec fn let_through(policy: Option<PolicyView>, name: Seq<char>) -> bool {
    match policy {
        Some(policy) => tool_allowed(policy, name),
        None => true,
    }
}

/// The tools of the given names, as far as there are such and the policy lets them
/// through.
pub open spec fn selected(
    tools: Seq<RemoteTool>,
    policy: Option<PolicyView>,
    names: Seq<Seq<char>>,
    active: Seq<Seq<char>>,
) -> Shown
    decreases names.len(),
{
    if names.len() == 0 {
        nothing_shown()
    } else {
        let before = selected(tools, policy, names.drop_last(), active);
        let name = names.last();
        if name.len() == 0 {
            before
        } else if !let_through(policy, name) {
            Shown { missing: before.missing.push(name), ..before }
        } else {
            match tool_named(tools, name) {
                Some(tool) => show(before, spec_of(tool), name, active),
                None => Shown { missing: before.missing.push(name), ..before },
            }
        }
    }
}

/// The answer to a selection by name.
pub open spec fn selection_text(shown: Shown) -> Seq<char> {
    let body = shown.lines + "</functions>\n"@;
    if shown.missing.len() == 0 {
        body
    } else {
        body + "\nNot found: "@ + join(shown.missing, ", "@)
    }
}

/// Of the tools that were found, the first `max` that the policy lets through.
pub open spec fn offered(
    found: Seq<RemoteTool>,
    policy: Option<PolicyView>,
    max: nat,
) -> Seq<RemoteTool>
    decreases found.len(),
{
    if found.len() == 0 {
        Seq::empty()
    } else {
        let before = offered(found.drop_last(), policy, max);
        if before.len() < max && let_through(policy, found.last().name()) {
            before.push(found.last())
        } else {
            before
        }
    }
}

/// The tools, each shown.
pub open spec fn all_shown(tools: Seq<RemoteTool>, active: Seq<Seq<char>>) -> Shown
    decreases tools.len(),
{
    if tools.len() == 0 {
        nothing_shown()
    } else {
        show(
            all_shown(tools.drop_last(), active),
            spec_of(tools.last()),
            tools.last().name(),
            active,
        )
    }
}

/// What a search by keyword may find before the policy is asked: with a policy everything,
/// so that a tool that is not let through takes no place.
pub open spec fn candidates(
    tools: Seq<RemoteTool>,
    policy: Option<PolicyView>,
    query: Seq<char>,
    max: nat,
) -> Seq<RemoteTool> {
    searched(
        tools,
        query,
        if policy is Some {
            usize::MAX as nat
        } else {
            max
        },
    )
}

pub const NOTHING_FOUND: &'static str = "No matching deferred tools found.";

/// The answer to a search by keyword, and the tools that become active.
pub open spec fn keyword_outcome(
    tools: Seq<RemoteTool>,
    policy: Option<PolicyView>,
    query: Seq<char>,
    max: nat,
    active: Seq<Seq<char>>,
) -> (Seq<char>, Seq<Seq<char>>) {
    let found = candidates(tools, policy, query, max);
    if found.len() == 0 {
        (NOTHING_FOUND@, Seq::empty())
    } else {
        let shown = all_shown(offered(found, policy, max), active);
        (shown.lines + "</functions>\n"@, shown.activated)
    }
}

/// Texts with the white space around each taken off.
pub open spec fn each_trimmed(texts: Seq<Seq<char>>) -> Seq<Seq<char>> {
    texts.map_values(|t: Seq<char>| trim(t))
}

/// The query in a tool's input.
pub open spec fn query_in(args: JsonView) -> Seq<char> {
    match args.at("query"@).text() {
        Some(query) => trim(query),
        None => Seq::empty(),
    }
}

/// How many results a tool's input asks for.
pub open spec fn max_in(args: JsonView) -> nat {
    match args.at("max_results"@).unsigned() {
        Some(n) => if n <= usize::MAX {
            n as nat
        } else {
            DEFAULT_MAX_RESULTS as nat
        },
        None => DEFAULT_MAX_RESULTS as nat,
    }
}

pub const QUERY_MISSING: &'static str = "query parameter is required";

pub const SELECT: &'static str = "select:";

/// What a call comes to: whether it succeeds, the answer, and the tools that become
/// active.
pub open spec fn search_outcome(
    tools: Seq<RemoteTool>,
    policy: Option<PolicyView>,
    args: JsonView,
    active: Seq<Seq<char>>,
) -> (bool, Seq<char>, Seq<Seq<char>>) {
    let query = query_in(args);
    if query.len() == 0 {
        (false, QUERY_MISSING@, Seq::empty())
    } else if starts_with(query, SELECT@) {
        let names = each_trimmed(split(query.skip(SELECT@.len() as int), ","@));
        let shown = selected(tools, policy, names, active);
        (true, selection_text(shown), shown.activated)
    } else {
        let (answer, activated) = keyword_outcome(tools, policy, query, max_in(args), active);
        (true, answer, activated)
    }
}

fn is_active(active: &Vec<String>, name: &str) -> (r: bool)
    ensures
        r == active.deep_view().contains(name@),
{
    let mut i: usize = 0;
    while i < active.len()
        invariant
            i <= active@.len(),
            forall|k: int| 0 <= k < i ==> #[trigger] active.deep_view()[k] != name@,
        decreases active@.len() - i,
    {
        if same(active[i].as_str(), name) {
            assert(active.deep_view()[i as int] == name@);
            return true;
        }
        i = i + 1;
    }
    false
}

fn emit_and_activate(
    out: &mut String,
    spec: &ToolSpec,
    prefixed: &str,
    active: &Vec<String>,
    activated: &mut Vec<String>,
)
    ensures
        final(out)@ == old(out)@ + function_line(spec.deep_view()),
        final(activated).deep_view() == if active.deep_view().contains(prefixed@) {
            old(activated).deep_view()
        } else {
            old(activated).deep_view().push(prefixed@)
        },
{
    let ghost start = out@;
    if !is_active(active, prefixed) {
        push_to(activated, prefixed.to_owned());
    }
    out.append("<function>{\"name\": \"");
    out.append(spec.name.as_str());
    out.append("\", \"description\": \"");
    out.append(escape_quotes(spec.description.as_str()).as_str());
    out.append("\", \"parameters\": ");
    out.append(spec.parameters.print().as_str());
    out.append("}</function>\n");
    assert(out@ =~= start + function_line(spec.deep_view()));
}

impl ToolSearchTool {
    /// A search in the given tools.
    pub fn new(deferred: DeferredMcpToolSet) -> (r: ToolSearchTool)
        ensures
            r.deferred == deferred,
            r.policy is None,
    {
        ToolSearchTool { deferred, policy: None }
    }

    /// The search with a policy.
    pub fn with_access_policy(self, policy: ToolAccessPolicy) -> (r: ToolSearchTool)
        ensures
            r.deferred == self.deferred,
            r.policy == Some(policy),
    {
        ToolSearchTool { deferred: self.deferred, policy: Some(policy) }
    }

    /// The tool's name.
    pub fn name(&self) -> (r: &'static str)
        ensures
            r@ == "tool_search"@,
    {
        "tool_search"
    }

    /// What the tool says of itself.
    pub fn description(&self) -> (r: &'static str)
        ensures
            r@ == SEARCH_DESCRIPTION@,
    {
        SEARCH_DESCRIPTION
    }

    /// The schema of the tool's input.
    pub fn parameters_schema(&self) -> (r: Json)
        ensures
            r.deep_view() == search_schema(),
    {
        let mut query = empty_fields();
        put(&mut query, "type", text("string"));
        put(
            &mut query,
            "description",
            text("\"select:<name>[,<name>...]\" for exact tools, or keywords to search."),
        );
        let mut max_results = empty_fields();
        put(&mut max_results, "type", text("number"));
        put(
            &mut max_results,
            "description",
            text("Maximum number of results (default 5)."),
        );
        let mut properties = empty_fields();
        put(&mut properties, "query", object(query));
        put(&mut properties, "max_results", object(max_results));
        let mut required: Vec<Json> = Vec::new();
        assert(required.deep_view() =~= Seq::empty());
        push_to(&mut required, text("query"));
        let mut fields = empty_fields();
        put(&mut fields, "type", text("object"));
        put(&mut fields, "properties", object(properties));
        put(&mut fields, "required", array(required));
        object(fields)
    }

    fn is_allowed(&self, name: &str) -> (r: bool)
        ensures
            r == let_through(self.policy.deep_view(), name@),
    {
        match &self.policy {
            Some(policy) => policy.is_tool_allowed(name),
            None => true,
        }
    }

    /// Shows the tools of the given names, and activates those that `active` does not
    /// hold.
    pub fn select(&self, names: &Vec<String>, active: &Vec<String>) -> (r: SearchOutcome)
        ensures
            ({
                let shown = selected(
                    self.deferred.deep_view(),
                    self.policy.deep_view(),
                    names.deep_view(),
                    active.deep_view(),
                );
                &&& r.result.success
                &&& r.result.output.deep_view() == JsonView::Text(selection_text(shown))
                &&& r.activated.deep_view() == shown.activated
            }),
    {
        let ghost tools = self.deferred.deep_view();
        let ghost policy = self.policy.deep_view();
        let ghost already = active.deep_view();
        let ghost all = names.deep_view();
        let mut out = "<functions>\n".to_owned();
        let mut not_found: Vec<String> = Vec::new();
        let mut activated: Vec<String> = Vec::new();
        let mut i: usize = 0;
        assert(not_found.deep_view() =~= Seq::empty());
        assert(activated.deep_view() =~= Seq::empty());
        while i < names.len()
            invariant
                i <= names@.len(),
                all == names.deep_view(),
                already == active.deep_view(),
                tools == self.deferred.deep_view(),
                policy == self.policy.deep_view(),
                selected(tools, policy, all.take(i as int), already) == (Shown {
                    lines: out@,
                    missing: not_found.deep_view(),
                    activated: activated.deep_view(),
                }),
            decreases names@.len() - i,
        {
            assert(all.take(i + 1).drop_last() =~= all.take(i as int));
            let name = names[i].as_str();
            if !name.is_empty() {
                if !self.is_allowed(name) {
                    push_to(&mut not_found, name.to_owned());
                } else {
                    match self.deferred.spec(name) {
                        Some(spec) => {
                            emit_and_activate(&mut out, &spec, name, active, &mut activated);
                        },
                        None => {
                            push_to(&mut not_found, name.to_owned());
                        },
                    }
                }
            }
            i = i + 1;
        }
        assert(all.take(i as int) =~= all);
        out.append("</functions>\n");
        if not_found.len() != 0 {
            out.append("\nNot found: ");
            out.append(joined(&not_found, ", ").as_str());
        }
        SearchOutcome { result: ToolResult::ok_text(out), activated }
    }

    /// Shows the tools that a query finds, and activates those that `active` does not
    /// hold.
    pub fn keyword(&self, query: &str, max_results: usize, active: &Vec<String>) -> (r:
        SearchOutcome)
        ensures
            ({
                let (answer, activated) = keyword_outcome(
                    self.deferred.deep_view(),
                    self.policy.deep_view(),
                    query@,
                    max_results as nat,
                    active.deep_view(),
                );
                &&& r.result.success
                &&& r.result.output.deep_view() == JsonView::Text(answer)
                &&& r.activated.deep_view() == activated
            }),
    {
        let ghost policy = self.policy.deep_view();
        let ghost already = active.deep_view();
        let limit = if self.policy.is_some() {
            usize::MAX
        } else {
            max_results
        };
        let results = self.deferred.search(query, limit);
        let mut activated: Vec<String> = Vec::new();
        assert(activated.deep_view() =~= Seq::empty());
        if results.len() == 0 {
            return SearchOutcome {
                result: ToolResult::ok_text(NOTHING_FOUND.to_owned()),
                activated,
            };
        }
        let ghost found = results.deep_view();
        let mut out = "<functions>\n".to_owned();
        let mut returned: usize = 0;
        let mut i: usize = 0;
        while i < results.len() && returned < max_results
            invariant
                i <= results@.len(),
                returned <= max_results,
                found == results.deep_view(),
                already == active.deep_view(),
                policy == self.policy.deep_view(),
                returned == offered(found.take(i as int), policy, max_results as nat).len(),
                all_shown(offered(found.take(i as int), policy, max_results as nat), already) == (
                Shown {
                    lines: out@,
                    missing: Seq::empty(),
                    activated: activated.deep_view(),
                }),
            decreases results@.len() - i,
        {
            assert(found.take(i + 1).drop_last() =~= found.take(i as int));
            let ghost before = offered(found.take(i as int), policy, max_results as nat);
            let stub = results[i];
            assert(stub.deep_view() == found[i as int]);
            if self.is_allowed(stub.prefixed_name()) {
                emit_and_activate(
                    &mut out,
                    &stub.spec(),
                    stub.prefixed_name(),
                    active,
                    &mut activated,
                );
                returned = returned + 1;
                assert(before.push(found[i as int]).drop_last() =~= before);
            }
            i = i + 1;
        }
        proof {
            if i < results@.len() {
                a_full_offer_stays(found, policy, max_results as nat, i as int);
            } else {
                assert(found.take(i as int) =~= found);
            }
        }
        out.append("</functions>\n");
        SearchOutcome { result: ToolResult::ok_text(out), activated }
    }

    /// Answers a call, for a conversation in which the tools in `active` are active.
    pub fn execute(&self, args: &Json, active: &Vec<String>) -> (r: SearchOutcome)
        ensures
            ({
                let (success, answer, activated) = search_outcome(
                    self.deferred.deep_view(),
                    self.policy.deep_view(),
                    args.deep_view(),
                    active.deep_view(),
                );
                &&& r.result.success == success
                &&& r.result.output.deep_view() == JsonView::Text(answer)
                &&& r.activated.deep_view() == activated
            }),
    {
        let query = match args.text_at("query") {
            Some(query) => trimmed(query.as_str()),
            None => String::new(),
        };
        if query.as_str().is_empty() {
            let none: Vec<String> = Vec::new();
            assert(none.deep_view() =~= Seq::empty());
            return SearchOutcome {
                result: ToolResult::error(QUERY_MISSING.to_owned()),
                activated: none,
            };
        }
        let max_results = match args.unsigned_at("max_results") {
            Some(n) => if n <= usize::MAX as u64 {
                n as usize
            } else {
                DEFAULT_MAX_RESULTS
            },
            None => DEFAULT_MAX_RESULTS,
        };
        match strip_prefix(query.as_str(), SELECT) {
            Some(rest) => {
                proof {
                    reveal_strlit(",");
                }
                let parts = pieces(rest.as_str(), ",");
                let mut names: Vec<String> = Vec::new();
                let mut i: usize = 0;
                let ghost all = parts.deep_view();
                assert(names.deep_view() =~= each_trimmed(all.take(0)));
                while i < parts.len()
                    invariant
                        i <= parts@.len(),
                        all == parts.deep_view(),
                        names.deep_view() == each_trimmed(all.take(i as int)),
                    decreases parts@.len() - i,
                {
                    push_to(&mut names, trimmed(parts[i].as_str()));
                    assert(names.deep_view() =~= each_trimmed(all.take(i + 1)));
                    i = i + 1;
                }
                assert(all.take(i as int) =~= all);
                self.select(&names, active)
            },
            None => self.keyword(query.as_str(), max_results, active),
        }
    }
}

proof fn a_full_offer_stays(
    found: Seq<RemoteTool>,
    policy: Option<PolicyView>,
    max: nat,
    k: int,
)
    requires
        0 <= k <= found.len(),
        offered(found.take(k), policy, max).len() >= max,
    ensures
        offered(found, policy, max) == offered(found.take(k), policy, max),
    decreases found.len() - k,
{
    if k < found.len() {
        assert(found.take(k + 1).drop_last() =~= found.take(k));
        a_full_offer_stays(found, policy, max, k + 1);
    } else {
        assert(found.take(k) =~= found);
    }
}

/// What the tool says of itself.
pub const SEARCH_DESCRIPTION: &'static str =
    "Fetch full schema definitions for deferred tools so they can be called. Use \"select:name1,name2\" for exact tools, or keywords to search.";

/// The schema of the tool's input.
pub open spec fn search_schema() -> JsonView {
    let query = no_fields().push(("type"@, JsonView::Text("string"@))).push(
        (
            "description"@,
            JsonView::Text(
                "\"select:<name>[,<name>...]\" for exact tools, or keywords to search."@,
            ),
        ),
    );
    let max_results = no_fields().push(("type"@, JsonView::Text("number"@))).push(
        ("description"@, JsonView::Text("Maximum number of results (default 5)."@)),
    );
    let properties = no_fields().push(("query"@, JsonView::Object(query))).push(
        ("max_results"@, JsonView::Object(max_results)),
    );
    JsonView::Object(
        no_fields().push(("type"@, JsonView::Text("object"@))).push(
            ("properties"@, JsonView::Object(properties)),
        ).push(
            (
                "required"@,
                JsonView::Array(Seq::empty().push(JsonView::Text("query"@))),
            ),
        ),
    )
}

proof fn offers_are_let_through(
    found: Seq<RemoteTool>,
    policy: Option<PolicyView>,
    max: nat,
    i: int,
)
    requires
        0 <= i < offered(found, policy, max).len(),
    ensures
        let_through(policy, offered(found, policy, max)[i].name()),
        found.contains(offered(found, policy, max)[i]),
    decreases found.len(),
{
    if found.len() > 0 {
        let before = offered(found.drop_last(), policy, max);
        if i < before.len() {
            offers_are_let_through(found.drop_last(), policy, max, i);
            let k = choose|k: int|
                0 <= k < found.drop_last().len() && found.drop_last()[k] == before[i];
            assert(found[k] == before[i]);
        } else {
            assert(found[found.len() - 1] == found.last());
        }
    }
}

proof fn shown_tools_are_activated(
    tools: Seq<RemoteTool>,
    active: Seq<Seq<char>>,
    name: Seq<char>,
)
    requires
        all_shown(tools, active).activated.contains(name),
    ensures
        !active.contains(name),
        exists|i: int| 0 <= i < tools.len() && (#[trigger] tools[i]).name() == name,
    decreases tools.len(),
{
    if tools.len() > 0 {
        let before = all_shown(tools.drop_last(), active).activated;
        let now = all_shown(tools, active).activated;
        let k = choose|k: int| 0 <= k < now.len() && now[k] == name;
        if k < before.len() {
            assert(before[k] == name);
            shown_tools_are_activated(tools.drop_last(), active, name);
            let i = choose|i: int|
                0 <= i < tools.drop_last().len() && (#[trigger] tools.drop_last()[i]).name()
                    == name;
            assert(tools[i].name() == name);
        } else {
            assert(tools[tools.len() - 1].name() == name);
        }
    }
}

proof fn selected_tools_are_activated(
    tools: Seq<RemoteTool>,
    policy: Option<PolicyView>,
    names: Seq<Seq<char>>,
    active: Seq<Seq<char>>,
    name: Seq<char>,
)
    requires
        selected(tools, policy, names, active).activated.contains(name),
    ensures
        !active.contains(name),
        let_through(policy, name),
        tool_named(tools, name) is Some,
    decreases names.len(),
{
    if names.len() > 0 {
        let before = selected(tools, policy, names.drop_last(), active).activated;
        let now = selected(tools, policy, names, active).activated;
        let k = choose|k: int| 0 <= k < now.len() && now[k] == name;
        if k < before.len() {
            assert(before[k] == name);
            selected_tools_are_activated(tools, policy, names.drop_last(), active, name);
        }
    }
}

/// Whatever is asked, only tools that the policy lets through become active, and none
/// that is active already.
pub proof fn only_allowed_tools_are_activated(
    tools: Seq<RemoteTool>,
    policy: Option<PolicyView>,
    args: JsonView,
    active: Seq<Seq<char>>,
    name: Seq<char>,
)
    requires
        search_outcome(tools, policy, args, active).2.contains(name),
    ensures
        let_through(policy, name),
        !active.contains(name),
{
    let query = query_in(args);
    if starts_with(query, SELECT@) {
        let names = each_trimmed(split(query.skip(SELECT@.len() as int), ","@));
        selected_tools_are_activated(tools, policy, names, active, name);
    } else {
        let found = candidates(tools, policy, query, max_in(args));
        let shown = offered(found, policy, max_in(args));
        shown_tools_are_activated(shown, active, name);
        let i = choose|i: int| 0 <= i < shown.len() && (#[trigger] shown[i]).name() == name;
        offers_are_let_through(found, policy, max_in(args), i);
    }
}

proof fn offers_are_few(found: Seq<RemoteTool>, policy: Option<PolicyView>, max: nat)
    ensures
        offered(found, policy, max).len() <= max,
    decreases found.len(),
{
    if found.len() > 0 {
        offers_are_few(found.drop_last(), policy, max);
    }
}

/// A search by keyword shows no more tools than asked for, and only tools that the policy
/// lets through.
pub proof fn offers_respect_policy_and_limit(
    tools: Seq<RemoteTool>,
    policy: Option<PolicyView>,
    query: Seq<char>,
    max: nat,
)
    ensures
        ({
            let shown = offered(candidates(tools, policy, query, max), policy, max);
            &&& shown.len() <= max
            &&& forall|i: int|
                0 <= i < shown.len() ==> let_through(policy, (#[trigger] shown[i]).name())
        }),
{
    let found = candidates(tools, policy, query, max);
    let shown = offered(found, policy, max);
    offers_are_few(found, policy, max);
    assert forall|i: int| 0 <= i < shown.len() implies let_through(
        policy,
        (#[trigger] shown[i]).name(),
    ) by {
        offers_are_let_through(found, policy, max, i);
    }
}

} // verus!
