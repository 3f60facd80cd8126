//! Tools that a model finds by name or by keyword before it may use them.
use vstd::prelude::*;

use crate::mcp::client::{ClientView, McpClient, McpHandle};
use crate::mcp::protocol::{McpToolDef, ToolDefView};
use crate::mcp::tool::{McpTool, RemoteTool, description_of, prefixed_name};
use crate::order::{
    as_ints, by_score, ordered, ordered_is_sorted, rank_by_score, scores_are_ordered,
};
use crate::text::{contains, has, labelled, lower, lowercase, push_to, same, words, words_of};
use crate::tool::{SpecView, ToolSpec};

verus! {

/// A tool that is not loaded yet.
#[derive(Debug)]
pub struct DeferredMcpToolStub {
    handle: McpHandle,
    def: McpToolDef,
    prefixed: String,
}

impl DeepView for DeferredMcpToolStub {
    type V = RemoteTool;

    closed spec fn deep_view(&self) -> RemoteTool {
        RemoteTool {
            server: self.handle.server_name@,
            reconnects: self.handle.reconnects,
            def: self.def.deep_view(),
        }
    }
}

impl Clone for DeferredMcpToolStub {
    fn clone(&self) -> (r: DeferredMcpToolStub)
        ensures
            r.deep_view() == self.deep_view(),
    {
        proof {
            use_type_invariant(self);
        }
        DeferredMcpToolStub {
            handle: self.handle.clone(),
            def: self.def.clone(),
            prefixed: self.prefixed.clone(),
        }
    }
}

/// A tool as a model is told of it.
pub open spec fn spec_of(tool: RemoteTool) -> SpecView {
    SpecView {
        name: tool.name(),
        description: tool.description(),
        parameters: tool.def.input_schema,
    }
}

impl DeferredMcpToolStub {
    #[verifier::type_invariant]
    spec fn named(self) -> bool {
        self.prefixed@ == self.deep_view().name()
    }

    /// A tool of the server behind a handle.
    pub fn new(handle: McpHandle, def: McpToolDef) -> (r: DeferredMcpToolStub)
        ensures
            r.deep_view() == (RemoteTool {
                server: handle.server_name@,
                reconnects: handle.reconnects,
                def: def.deep_view(),
            }),
    {
        let prefixed = prefixed_name(handle.server_name.as_str(), def.name.as_str());
        DeferredMcpToolStub { handle, def, prefixed }
    }

    /// The name under which the agent knows the tool.
    pub fn prefixed_name(&self) -> (r: &str)
        ensures
            r@ == self.deep_view().name(),
    {
        proof {
            use_type_invariant(self);
        }
        self.prefixed.as_str()
    }

    /// What the server says of the tool.
    pub fn description(&self) -> (r: &str)
        ensures
            r@ == self.deep_view().description(),
    {
        description_of(&self.def)
    }

    /// The tool as a model is told of it.
    pub fn spec(&self) -> (r: ToolSpec)
        ensures
            r.deep_view() == spec_of(self.deep_view()),
    {
        proof {
            use_type_invariant(self);
        }
        ToolSpec {
            name: self.prefixed.clone(),
            description: self.description().to_owned(),
            parameters: self.def.input_schema.clone(),
        }
    }

    /// The tool itself.
    pub fn activate(&self) -> (r: McpTool)
        ensures
            r.deep_view() == self.deep_view(),
    {
        McpTool::new(self.handle.clone(), self.def.clone())
    }
}

/// The tools of all servers.
#[derive(Debug)]
pub struct DeferredMcpToolSet {
    pub stubs: Vec<DeferredMcpToolStub>,
}

impl DeepView for DeferredMcpToolSet {
    type V = Seq<RemoteTool>;

    open spec fn deep_view(&self) -> Seq<RemoteTool> {
        self.stubs.deep_view()
    }
}

impl Clone for DeferredMcpToolSet {
    fn clone(&self) -> (r: DeferredMcpToolSet)
        ensures
            r.deep_view() == self.deep_view(),
    {
        let mut stubs: Vec<DeferredMcpToolStub> = Vec::new();
        let mut i: usize = 0;
        let ghost all = self.stubs.deep_view();
        assert(stubs.deep_view() =~= all.take(0));
        while i < self.stubs.len()
            invariant
                i <= self.stubs@.len(),
                all == self.stubs.deep_view(),
                stubs.deep_view() == all.take(i as int),
            decreases self.stubs@.len() - i,
        {
            push_to(&mut stubs, self.stubs[i].clone());
            assert(stubs.deep_view() =~= all.take(i + 1));
            i = i + 1;
        }
        assert(all.take(i as int) =~= all);
        DeferredMcpToolSet { stubs }
    }
}

impl Default for DeferredMcpToolSet {
    fn default() -> (r: DeferredMcpToolSet)
        ensures
            r.deep_view() == Seq::<RemoteTool>::empty(),
    {
        let r = DeferredMcpToolSet { stubs: Vec::new() };
        assert(r.deep_view() =~= Seq::empty());
        r
    }
}

/// The tools of a server.
pub open spec fn tools_of_server(
    server: Seq<char>,
    reconnects: bool,
    defs: Seq<ToolDefView>,
) -> Seq<RemoteTool> {
    defs.map_values(|def: ToolDefView| RemoteTool { server, reconnects, def })
}

/// The tools of all servers, one server behind the other.
pub open spec fn tools_of_servers(clients: Seq<ClientView>) -> Seq<RemoteTool>
    decreases clients.len(),
{
    if clients.len() == 0 {
        Seq::empty()
    } else {
        tools_of_servers(clients.drop_last()) + tools_of_server(
            clients.last().server_name,
            clients.last().reconnects,
            clients.last().tools,
        )
    }
}

/// The first of the tools that has the given name.
pub open spec fn tool_named(tools: Seq<RemoteTool>, name: Seq<char>) -> Option<RemoteTool>
    decreases tools.len(),
{
    if tools.len() == 0 {
        None
    } else {
        match tool_named(tools.drop_last(), name) {
            Some(tool) => Some(tool),
            None => if tools.last().name() == name {
                Some(tools.last())
            } else {
                None
            },
        }
    }
}

/// The names of tools.
pub open spec fn tool_names(tools: Seq<RemoteTool>) -> Seq<Seq<char>> {
    tools.map_values(|tool: RemoteTool| tool.name())
}

/// What a tool is searched in: its name and its description, in lower case.
pub open spec fn haystack(tool: RemoteTool) -> Seq<char> {
    lowercase(tool.name()) + " "@ + lowercase(tool.description())
}

/// How many of the terms stand in a text.
pub open spec fn hits(hay: Seq<char>, terms: Seq<Seq<char>>) -> nat
    decreases terms.len(),
{
    if terms.len() == 0 {
        0
    } else {
        hits(hay, terms.drop_last()) + if contains(hay, terms.last()) {
            1nat
        } else {
            0nat
        }
    }
}

/// The tools in which a term stands.
pub open spec fn matching(tools: Seq<RemoteTool>, terms: Seq<Seq<char>>) -> Seq<RemoteTool>
    decreases tools.len(),
{
    if tools.len() == 0 {
        Seq::empty()
    } else if hits(haystack(tools.last()), terms) > 0 {
        matching(tools.drop_last(), terms).push(tools.last())
    } else {
        matching(tools.drop_last(), terms)
    }
}

/// How many of the terms stand in each tool.
pub open spec fn scores(tools: Seq<RemoteTool>, terms: Seq<Seq<char>>) -> Seq<usize> {
    tools.map_values(|tool: RemoteTool| hits(haystack(tool), terms) as usize)
}

/// The tools in which a term stands, those with more terms first, and otherwise as they
/// came.
pub open spec fn ranking(tools: Seq<RemoteTool>, terms: Seq<Seq<char>>) -> Seq<RemoteTool> {
    let found = matching(tools, terms);
    ordered(found.len(), by_score(scores(found, terms))).map_values(|i: int| found[i])
}

/// The terms of a query: its words in lower case.
pub open spec fn terms_of(query: Seq<char>) -> Seq<Seq<char>> {
    words(lowercase(query))
}

/// What a search gives: at most `max` of the tools in which a term of the query stands,
/// the best first.
pub open spec fn searched(tools: Seq<RemoteTool>, query: Seq<char>, max: nat) -> Seq<RemoteTool> {
    let terms = terms_of(query);
    if terms.len() == 0 {
        Seq::empty()
    } else {
        let ranked = ranking(tools, terms);
        if ranked.len() <= max {
            ranked
        } else {
            ranked.take(max as int)
        }
    }
}

fn count_hits(hay: &str, terms: &Vec<String>) -> (r: usize)
    ensures
        r == hits(hay@, terms.deep_view()),
        r <= terms@.len(),
{
    let mut n: usize = 0;
    let mut i: usize = 0;
    let ghost all = terms.deep_view();
    while i < terms.len()
        invariant
            i <= terms@.len(),
            n <= i,
            all == terms.deep_view(),
            n == hits(hay@, all.take(i as int)),
        decreases terms@.len() - i,
    {
        assert(all.take(i + 1).drop_last() =~= all.take(i as int));
        if has(hay, terms[i].as_str()) {
            n = n + 1;
        }
        i = i + 1;
    }
    assert(all.take(i as int) =~= all);
    n
}

impl DeferredMcpToolSet {
    /// The given tools.
    pub fn new(stubs: Vec<DeferredMcpToolStub>) -> (r: DeferredMcpToolSet)
        ensures
            r.deep_view() == stubs.deep_view(),
    {
        DeferredMcpToolSet { stubs }
    }

    /// The tools of all connected servers.
    pub fn from_clients(clients: &Vec<McpClient>) -> (r: DeferredMcpToolSet)
        ensures
            r.deep_view() == tools_of_servers(clients.deep_view()),
    {
        let mut stubs: Vec<DeferredMcpToolStub> = Vec::new();
        let mut i: usize = 0;
        let ghost all = clients.deep_view();
        assert(stubs.deep_view() =~= Seq::empty());
        while i < clients.len()
            invariant
                i <= clients@.len(),
                all == clients.deep_view(),
                stubs.deep_view() == tools_of_servers(all.take(i as int)),
            decreases clients@.len() - i,
        {
            let client = &clients[i];
            let ghost before = stubs.deep_view();
            let ghost defs = client.tools.deep_view();
            let mut k: usize = 0;
            assert(before =~= before + tools_of_server(
                client.handle.server_name@,
                client.handle.reconnects,
                defs.take(0),
            ));
            while k < client.tools.len()
                invariant
                    k <= client.tools@.len(),
                    defs == client.tools.deep_view(),
                    stubs.deep_view() == before + tools_of_server(
                        client.handle.server_name@,
                        client.handle.reconnects,
                        defs.take(k as int),
                    ),
                decreases client.tools@.len() - k,
            {
                push_to(
                    &mut stubs,
                    DeferredMcpToolStub::new(client.handle.clone(), client.tools[k].clone()),
                );
                assert(stubs.deep_view() =~= before + tools_of_server(
                    client.handle.server_name@,
                    client.handle.reconnects,
                    defs.take(k + 1),
                ));
                k = k + 1;
            }
            assert(defs.take(k as int) =~= defs);
            assert(all.take(i + 1).drop_last() =~= all.take(i as int));
            i = i + 1;
        }
        assert(all.take(i as int) =~= all);
        DeferredMcpToolSet { stubs }
    }

    /// Whether there are no tools.
    pub fn is_empty(&self) -> (r: bool)
        ensures
            r == (self.deep_view().len() == 0),
    {
        self.stubs.len() == 0
    }

    /// How many tools there are.
    pub fn len(&self) -> (r: usize)
        ensures
            r == self.deep_view().len(),
    {
        self.stubs.len()
    }

    /// The names of the tools.
    pub fn names(&self) -> (r: Vec<&str>)
        ensures
            r.deep_view() == tool_names(self.deep_view()),
    {
        let mut names: Vec<&str> = Vec::new();
        let mut i: usize = 0;
        let ghost all = self.stubs.deep_view();
        assert(names.deep_view() =~= tool_names(all.take(0)));
        while i < self.stubs.len()
            invariant
                i <= self.stubs@.len(),
                all == self.stubs.deep_view(),
                names.deep_view() == tool_names(all.take(i as int)),
            decreases self.stubs@.len() - i,
        {
            push_to(&mut names, self.stubs[i].prefixed_name());
            assert(names.deep_view() =~= tool_names(all.take(i + 1)));
            i = i + 1;
        }
        assert(all.take(i as int) =~= all);
        names
    }

    /// The first tool of the given name.
    pub fn find(&self, prefixed: &str) -> (r: Option<&DeferredMcpToolStub>)
        ensures
            r.deep_view() == tool_named(self.deep_view(), prefixed@),
    {
        let mut i: usize = 0;
        let ghost all = self.stubs.deep_view();
        while i < self.stubs.len()
            invariant
                i <= self.stubs@.len(),
                all == self.stubs.deep_view(),
                tool_named(all.take(i as int), prefixed@) is None,
            decreases self.stubs@.len() - i,
        {
            assert(all.take(i + 1).drop_last() =~= all.take(i as int));
            if same(self.stubs[i].prefixed_name(), prefixed) {
                proof {
                    first_stays_first(all, prefixed@, i + 1);
                }
                return Some(&self.stubs[i]);
            }
            i = i + 1;
        }
        assert(all.take(i as int) =~= all);
        None
    }

    /// The tool of the given name as a model is told of it.
    pub fn spec(&self, prefixed: &str) -> (r: Option<ToolSpec>)
        ensures
            r.deep_view() == match tool_named(self.deep_view(), prefixed@) {
                Some(tool) => Some(spec_of(tool)),
                None => None,
            },
    {
        match self.find(prefixed) {
            Some(stub) => Some(stub.spec()),
            None => None,
        }
    }

    /// The tool of the given name itself.
    pub fn activate(&self, prefixed: &str) -> (r: Option<McpTool>)
        ensures
            r.deep_view() == tool_named(self.deep_view(), prefixed@),
    {
        match self.find(prefixed) {
            Some(stub) => Some(stub.activate()),
            None => None,
        }
    }

    /// The tools in which terms of a query stand, the best first, and at most `max`.
    pub fn search(&self, query: &str, max: usize) -> (r: Vec<&DeferredMcpToolStub>)
        ensures
            r.deep_view() == searched(self.deep_view(), query@, max as nat),
    {
        let terms = words_of(lower(query).as_str());
        let mut best: Vec<&DeferredMcpToolStub> = Vec::new();
        assert(best.deep_view() =~= Seq::empty());
        if terms.len() == 0 {
            return best;
        }
        let mut found: Vec<&DeferredMcpToolStub> = Vec::new();
        let mut counts: Vec<usize> = Vec::new();
        let mut i: usize = 0;
        let ghost all = self.stubs.deep_view();
        let ghost wanted = terms.deep_view();
        assert(found.deep_view() =~= Seq::empty());
        assert(counts@ =~= scores(Seq::empty(), wanted));
        while i < self.stubs.len()
            invariant
                i <= self.stubs@.len(),
                all == self.stubs.deep_view(),
                wanted == terms.deep_view(),
                found.deep_view() == matching(all.take(i as int), wanted),
                counts@ == scores(found.deep_view(), wanted),
            decreases self.stubs@.len() - i,
        {
            assert(all.take(i + 1).drop_last() =~= all.take(i as int));
            let stub = &self.stubs[i];
            let mut hay = labelled(lower(stub.prefixed_name()).as_str(), " ");
            hay.append(lower(stub.description()).as_str());
            let n = count_hits(hay.as_str(), &terms);
            if n > 0 {
                push_to(&mut found, stub);
                counts.push(n);
                assert(counts@ =~= scores(found.deep_view(), wanted));
            }
            i = i + 1;
        }
        assert(all.take(i as int) =~= all);
        let order = rank_by_score(&counts);
        let ghost ranked = ranking(all, wanted);
        let ghost all_found = found.deep_view();
        let mut k: usize = 0;
        assert(as_ints(order@).len() == order@.len());
        assert(ranked.len() == order@.len());
        assert(best.deep_view() =~= ranked.take(0));
        while k < order.len() && k < max
            invariant
                k <= order@.len(),
                k <= max,
                all_found == found.deep_view(),
                ranked.len() == order@.len(),
                forall|j: int| 0 <= j < order@.len() ==> #[trigger] order@[j] < found@.len(),
                as_ints(order@) == ordered(all_found.len(), by_score(scores(all_found, wanted))),
                ranked == ordered(
                    all_found.len(),
                    by_score(scores(all_found, wanted)),
                ).map_values(|i: int| all_found[i]),
                best.deep_view() == ranked.take(k as int),
            decreases order@.len() - k,
        {
            assert(ranked[k as int] == all_found[as_ints(order@)[k as int]]);
            push_to(&mut best, found[order[k]]);
            assert(best.deep_view() =~= ranked.take(k + 1));
            k = k + 1;
        }
        assert(ranked.take(ranked.len() as int) =~= ranked);
        best
    }
}

proof fn first_stays_first(tools: Seq<RemoteTool>, name: Seq<char>, k: int)
    requires
        0 <= k <= tools.len(),
        tool_named(tools.take(k), name) is Some,
    ensures
        tool_named(tools, name) == tool_named(tools.take(k), name),
    decreases tools.len() - k,
{
    if k < tools.len() {
        assert(tools.take(k + 1).drop_last() =~= tools.take(k));
        first_stays_first(tools, name, k + 1);
    } else {
        assert(tools.take(k) =~= tools);
    }
}

proof fn matches_are_hit(tools: Seq<RemoteTool>, terms: Seq<Seq<char>>, tool: RemoteTool)
    ensures
        matching(tools, terms).contains(tool) <==> tools.contains(tool) && hits(
            haystack(tool),
            terms,
        ) > 0,
    decreases tools.len(),
{
    if tools.len() > 0 {
        let before = tools.drop_last();
        matches_are_hit(before, terms, tool);
        let kept = matching(before, terms);
        let last = tools.last();
        if tools.contains(tool) {
            let i = choose|i: int| 0 <= i < tools.len() && tools[i] == tool;
            if i < before.len() {
                assert(before[i] == tool);
            }
        }
        if before.contains(tool) {
            let i = choose|i: int| 0 <= i < before.len() && before[i] == tool;
            assert(tools[i] == tool);
        }
        assert(tools[tools.len() - 1] == last);
        let more = kept.push(last);
        if kept.contains(tool) {
            let i = choose|i: int| 0 <= i < kept.len() && kept[i] == tool;
            assert(more[i] == tool);
        }
        assert(more[kept.len() as int] == last);
        if more.contains(tool) && tool != last {
            let i = choose|i: int| 0 <= i < more.len() && more[i] == tool;
            assert(kept[i] == tool);
        }
    }
}

proof fn hits_are_few(hay: Seq<char>, terms: Seq<Seq<char>>)
    ensures
        hits(hay, terms) <= terms.len(),
    decreases terms.len(),
{
    if terms.len() > 0 {
        hits_are_few(hay, terms.drop_last());
    }
}

/// A search gives only tools of the set in which a term stands, no more than asked for,
/// and none before one in which more terms stand.
pub proof fn searches_rank(tools: Seq<RemoteTool>, query: Seq<char>, max: nat)
    requires
        terms_of(query).len() <= usize::MAX,
    ensures
        searched(tools, query, max).len() <= max,
        forall|i: int|
            0 <= i < searched(tools, query, max).len() ==> {
                let tool = #[trigger] searched(tools, query, max)[i];
                tools.contains(tool) && hits(haystack(tool), terms_of(query)) > 0
            },
        forall|i: int, j: int|
            0 <= i < j < searched(tools, query, max).len() ==> hits(
                haystack(#[trigger] searched(tools, query, max)[i]),
                terms_of(query),
            ) >= hits(haystack(#[trigger] searched(tools, query, max)[j]), terms_of(query)),
{
    let terms = terms_of(query);
    let found = matching(tools, terms);
    let counts = scores(found, terms);
    let order = ordered(found.len(), by_score(counts));
    scores_are_ordered(counts);
    ordered_is_sorted(found.len(), by_score(counts));
    let out = searched(tools, query, max);
    assert forall|i: int| 0 <= i < out.len() implies {
        let tool = #[trigger] out[i];
        tools.contains(tool) && hits(haystack(tool), terms) > 0
    } by {
        assert(order.contains(order[i]));
        assert(0 <= order[i] < found.len());
        assert(out[i] == found[order[i]]);
        assert(found.contains(out[i]));
        matches_are_hit(tools, terms, out[i]);
    }
    assert forall|i: int, j: int| 0 <= i < j < out.len() implies hits(
        haystack(#[trigger] out[i]),
        terms,
    ) >= hits(haystack(#[trigger] out[j]), terms) by {
        assert(order.contains(order[i]) && order.contains(order[j]));
        assert(out[i] == found[order[i]] && out[j] == found[order[j]]);
        hits_are_few(haystack(out[i]), terms);
        hits_are_few(haystack(out[j]), terms);
        assert(!by_score(counts)(order[j], order[i]));
        assert(counts[order[i]] == hits(haystack(out[i]), terms));
        assert(counts[order[j]] == hits(haystack(out[j]), terms));
    }
}

proof fn matches_are_few(tools: Seq<RemoteTool>, terms: Seq<Seq<char>>)
    ensures
        matching(tools, terms).len() <= tools.len(),
    decreases tools.len(),
{
    if tools.len() > 0 {
        matches_are_few(tools.drop_last(), terms);
    }
}

/// A search with room for all tools misses none in which a term stands.
pub proof fn searches_miss_nothing(
    tools: Seq<RemoteTool>,
    query: Seq<char>,
    max: nat,
    tool: RemoteTool,
)
    requires
        tools.len() <= max,
        tools.contains(tool),
        hits(haystack(tool), terms_of(query)) > 0,
    ensures
        searched(tools, query, max).contains(tool),
{
    let terms = terms_of(query);
    let found = matching(tools, terms);
    let counts = scores(found, terms);
    let order = ordered(found.len(), by_score(counts));
    matches_are_few(tools, terms);
    scores_are_ordered(counts);
    ordered_is_sorted(found.len(), by_score(counts));
    matches_are_hit(tools, terms, tool);
    let i = choose|i: int| 0 <= i < found.len() && found[i] == tool;
    assert(order.contains(i));
    let k = choose|k: int| 0 <= k < order.len() && order[k] == i;
    assert(searched(tools, query, max)[k] == tool);
}

/// Which tools a model may find and use.
#[derive(Debug)]
pub struct ToolAccessPolicy {
    pub allowed: Option<Vec<String>>,
    pub denied: Option<Vec<String>>,
}

impl Default for ToolAccessPolicy {
    fn default() -> (r: ToolAccessPolicy)
        ensures
            r.allowed is None,
            r.denied is None,
    {
        ToolAccessPolicy { allowed: None, denied: None }
    }
}

/// The model of a policy.
pub ghost struct PolicyView {
    pub allowed: Option<Seq<Seq<char>>>,
    pub denied: Option<Seq<Seq<char>>>,
}

impl DeepView for ToolAccessPolicy {
    type V = PolicyView;

    open spec fn deep_view(&self) -> PolicyView {
        PolicyView { allowed: self.allowed.deep_view(), denied: self.denied.deep_view() }
    }
}

/// Whether a policy lets a tool through: it is on the list of allowed ones, where there
/// is one, and not on the list of denied ones.
pub open spec fn tool_allowed(policy: PolicyView, name: Seq<char>) -> bool {
    let listed = match policy.allowed {
        Some(list) => list.contains(name),
        None => true,
    };
    let barred = match policy.denied {
        Some(list) => list.contains(name),
        None => false,
    };
    listed && !barred
}

fn is_listed(list: &Vec<String>, name: &str) -> (r: bool)
    ensures
        r == list.deep_view().contains(name@),
{
    let mut i: usize = 0;
    while i < list.len()
        invariant
            i <= list@.len(),
            forall|k: int| 0 <= k < i ==> #[trigger] list.deep_view()[k] != name@,
        decreases list@.len() - i,
    {
        if same(list[i].as_str(), name) {
            assert(list.deep_view()[i as int] == name@);
            return true;
        }
        i = i + 1;
    }
    false
}

impl ToolAccessPolicy {
    /// Whether the policy lets a tool through.
    pub fn is_tool_allowed(&self, name: &str) -> (r: bool)
        ensures
            r == tool_allowed(self.deep_view(), name@),
    {
        let in_allow = match &self.allowed {
            Some(list) => is_listed(list, name),
            None => true,
        };
        let in_deny = match &self.denied {
            Some(list) => is_listed(list, name),
            None => false,
        };
        in_allow && !in_deny
    }
}

/// A denied tool is not let through, even where it is allowed too.
pub proof fn denial_overrides(policy: PolicyView, denied: Seq<Seq<char>>, name: Seq<char>)
    requires
        policy.denied == Some(denied),
        denied.contains(name),
    ensures
        !tool_allowed(policy, name),
{
}

/// What stands before the names of the tools.
pub const SECTION_HEAD: &'static str =
    "<available-deferred-tools>\nThe following tools exist but their full schemas are not loaded. To use one, call `tool_search` with `select:<name>` (exact) or keywords to search, then call the tool by name.\n";

/// What stands behind the names of the tools.
pub const SECTION_TAIL: &'static str = "</available-deferred-tools>";

/// A line for each name.
pub open spec fn name_lines(names: Seq<Seq<char>>) -> Seq<char>
    decreases names.len(),
{
    if names.len() == 0 {
        Seq::empty()
    } else {
        name_lines(names.drop_last()) + "- "@ + names.last() + "\n"@
    }
}

/// The part of a system prompt that lists the tools; nothing where there are none.
pub open spec fn tools_section(names: Seq<Seq<char>>) -> Seq<char> {
    if names.len() == 0 {
        Seq::empty()
    } else {
        SECTION_HEAD@ + name_lines(names) + SECTION_TAIL@
    }
}

/// The part of a system prompt that lists the tools.
pub fn deferred_tools_prompt_section(names: &Vec<&str>) -> (r: String)
    ensures
        r@ == tools_section(names.deep_view()),
{
    if names.len() == 0 {
        return String::new();
    }
    let mut out = SECTION_HEAD.to_owned();
    let mut i: usize = 0;
    let ghost all = names.deep_view();
    assert(out@ =~= SECTION_HEAD@ + name_lines(all.take(0)));
    while i < names.len()
        invariant
            i <= names@.len(),
            all == names.deep_view(),
            out@ == SECTION_HEAD@ + name_lines(all.take(i as int)),
        decreases names@.len() - i,
    {
        assert(all.take(i + 1).drop_last() =~= all.take(i as int));
        out.append("- ");
        out.append(names[i]);
        out.append("\n");
        assert(out@ =~= SECTION_HEAD@ + name_lines(all.take(i + 1)));
        i = i + 1;
    }
    assert(all.take(i as int) =~= all);
    out.append(SECTION_TAIL);
    out
}

} // verus!
