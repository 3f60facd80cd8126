//! A server's tools as the agent sees them.
use vstd::prelude::*;

use crate::json::{Json, JsonView};
use crate::mcp::client::McpHandle;
use crate::mcp::error::{McpError, McpErrorView, error_text};
use crate::mcp::protocol::{
    CallResultView, CallToolResult, McpToolDef, ToolDefView, blocks_text, call_json,
    content_blocks_to_text, CallToolParams,
};
use crate::text::{labelled, starts_with};
use crate::tool::ToolResult;

verus! {

/// The name under which the agent knows a server's tool.
pub open spec fn prefixed(server: Seq<char>, tool: Seq<char>) -> Seq<char> {
    "mcp__"@ + server + "__"@ + tool
}

/// The name under which the agent knows a server's tool: `mcp__{server}__{tool}`.
pub fn prefixed_name(server_name: &str, tool_name: &str) -> (r: String)
    ensures
        r@ == prefixed(server_name@, tool_name@),
{
    let mut out = labelled("mcp__", server_name);
    out.append("__");
    out.append(tool_name);
    out
}

/// The model of a server's tool: the server, whether a lost connection to it is made anew,
/// and what the server says of the tool.
pub ghost struct RemoteTool {
    pub server: Seq<char>,
    pub reconnects: bool,
    pub def: ToolDefView,
}

impl RemoteTool {
    /// The name under which the agent knows the tool.
    pub open spec fn name(self) -> Seq<char> {
        prefixed(self.server, self.def.name)
    }

    /// What the server says of the tool; nothing where it says nothing.
    pub open spec fn description(self) -> Seq<char> {
        match self.def.description {
            Some(description) => description,
            None => Seq::empty(),
        }
    }
}

/// What a tool says of itself; an empty text where it says nothing.
pub fn description_of(def: &McpToolDef) -> (r: &str)
    ensures
        r@ == match def.deep_view().description {
            Some(description) => description,
            None => Seq::empty(),
        },
{
    match &def.description {
        Some(description) => description.as_str(),
        None => {
            proof {
                reveal_strlit("");
                assert(""@ =~= Seq::empty());
            }
            ""
        },
    }
}

/// What a call of a tool comes to: an error where the server or the transport gave one,
/// else the structured content, else the text.
pub open spec fn call_outcome(
    tool: RemoteTool,
    answer: Result<CallResultView, McpErrorView>,
) -> (bool, JsonView) {
    match answer {
        Ok(result) => if result.is_error == Some(true) {
            (false, JsonView::Text(blocks_text(result.content)))
        } else {
            match result.structured_content {
                Some(value) => (true, value),
                None => (true, JsonView::Text(blocks_text(result.content))),
            }
        },
        Err(error) => (
            false,
            JsonView::Text(
                "mcp tool '"@ + tool.def.name + "' on server '"@ + tool.server + "' failed: "@
                    + error_text(error),
            ),
        ),
    }
}

/// A server's tool.
#[derive(Debug)]
pub struct McpTool {
    handle: McpHandle,
    def: McpToolDef,
    prefixed: String,
}

impl DeepView for McpTool {
    type V = RemoteTool;

    closed spec fn deep_view(&self) -> RemoteTool {
        RemoteTool {
            server: self.handle.server_name@,
            reconnects: self.handle.reconnects,
            def: self.def.deep_view(),
        }
    }
}

impl McpTool {
    #[verifier::type_invariant]
    spec fn named(self) -> bool {
        self.prefixed@ == self.deep_view().name()
    }

    /// A tool of the server behind a handle.
    pub fn new(handle: McpHandle, def: McpToolDef) -> (r: McpTool)
        ensures
            r.deep_view() == (RemoteTool {
                server: handle.server_name@,
                reconnects: handle.reconnects,
                def: def.deep_view(),
            }),
    {
        let prefixed = prefixed_name(handle.server_name.as_str(), def.name.as_str());
        McpTool { handle, def, prefixed }
    }

    /// The name that the server gave the tool.
    pub fn raw_name(&self) -> (r: &str)
        ensures
            r@ == self.deep_view().def.name,
    {
        self.def.name.as_str()
    }

    /// The name under which the agent knows the tool.
    pub fn prefixed_name(&self) -> (r: &str)
        ensures
            r@ == self.deep_view().name(),
    {
        proof {
            use_type_invariant(self);
        }
        self.prefixed.as_str()
    }

    /// The name under which the agent knows the tool.
    pub fn name(&self) -> (r: &str)
        ensures
            r@ == self.deep_view().name(),
    {
        self.prefixed_name()
    }

    /// The name of the server.
    pub fn server_name(&self) -> (r: &str)
        ensures
            r@ == self.deep_view().server,
    {
        self.handle.server_name()
    }

    /// What the server says of the tool.
    pub fn description(&self) -> (r: &str)
        ensures
            r@ == self.deep_view().description(),
    {
        description_of(&self.def)
    }

    /// The schema of the tool's input, as the server has it.
    pub fn parameters_schema(&self) -> (r: Json)
        ensures
            r.deep_view() == self.deep_view().def.input_schema,
    {
        self.def.input_schema.clone()
    }

    /// What to send for a call with the given input.
    pub fn call_params(&self, input: Json) -> (r: Json)
        ensures
            r.deep_view() == call_json(self.deep_view().def.name, Some(input.deep_view())),
    {
        CallToolParams { name: self.def.name.clone(), arguments: Some(input) }.to_json()
    }

    /// What a call comes to, by what the server answered.
    pub fn outcome(&self, answer: Result<CallToolResult, McpError>) -> (r: ToolResult)
        ensures
            (r.success, r.output.deep_view()) == call_outcome(
                self.deep_view(),
                match answer {
                    Ok(result) => Ok(result.deep_view()),
                    Err(error) => Err(error.deep_view()),
                },
            ),
    {
        match answer {
            Ok(result) => {
                let failed = match result.is_error {
                    Some(flag) => flag,
                    None => false,
                };
                if failed {
                    ToolResult::error(content_blocks_to_text(&result.content))
                } else {
                    match result.structured_content {
                        Some(value) => ToolResult::ok(value),
                        None => ToolResult::ok_text(content_blocks_to_text(&result.content)),
                    }
                }
            },
            Err(error) => {
                let mut out = labelled("mcp tool '", self.def.name.as_str());
                out.append("' on server '");
                out.append(self.handle.server_name());
                out.append("' failed: ");
                out.append(error.message().as_str());
                ToolResult::error(out)
            },
        }
    }
}

proof fn sums_from_equal_fronts(a: Seq<char>, b: Seq<char>, x: Seq<char>, y: Seq<char>)
    requires
        a.len() == b.len(),
        a + x == b + y,
    ensures
        a == b,
        x == y,
{
    assert(a =~= (a + x).take(a.len() as int));
    assert(b =~= (b + y).take(b.len() as int));
    assert(x =~= (a + x).skip(a.len() as int));
    assert(y =~= (b + y).skip(b.len() as int));
}

/// Tools of one server never share a prefixed name, unless the server gave them one name.
pub proof fn names_of_one_server_differ(server: Seq<char>, one: Seq<char>, other: Seq<char>)
    ensures
        prefixed(server, one) == prefixed(server, other) ==> one == other,
{
    if prefixed(server, one) == prefixed(server, other) {
        let front = "mcp__"@ + server + "__"@;
        sums_from_equal_fronts(front, front, one, other);
    }
}

/// Whether the name of one server runs into that of another: it goes on where the other
/// ends with what stands between a server and a tool.
pub open spec fn runs_into(server: Seq<char>, other: Seq<char>) -> bool {
    other == server + "_"@ || starts_with(other, server + "__"@)
}

proof fn longer_names_run_into(
    server: Seq<char>,
    tool: Seq<char>,
    other: Seq<char>,
    its_tool: Seq<char>,
)
    requires
        server.len() < other.len(),
        prefixed(server, tool) == prefixed(other, its_tool),
    ensures
        runs_into(server, other),
{
    reveal_strlit("_");
    reveal_strlit("__");
    let name = prefixed(server, tool);
    let n = server.len() as int;
    let from = "mcp__"@.len() as int;
    assert forall|i: int| 0 <= i < other.len() implies other[i] == #[trigger] name[from + i] by {
        assert(prefixed(other, its_tool)[from + i] == other[i]);
    }
    assert forall|i: int| 0 <= i < n implies server[i] == #[trigger] name[from + i] by {}
    assert(name[from + n] == '_' && name[from + n + 1] == '_');
    assert forall|i: int| 0 <= i < n implies other[i] == server[i] by {
        assert(name[from + i] == server[i]);
        assert(name[from + i] == other[i]);
    }
    assert(other[n] == name[from + n]);
    if other.len() == n + 1 {
        assert(other =~= server + "_"@);
    } else {
        assert(other[n + 1] == name[from + (n + 1)]);
        assert(other.take(n + 2) =~= server + "__"@);
    }
}

/// Tools of two servers never share a prefixed name, unless the name of one server runs
/// into that of the other.
pub proof fn names_of_two_servers_differ(
    server: Seq<char>,
    tool: Seq<char>,
    other: Seq<char>,
    its_tool: Seq<char>,
)
    requires
        server != other,
        !runs_into(server, other),
        !runs_into(other, server),
    ensures
        prefixed(server, tool) != prefixed(other, its_tool),
{
    if prefixed(server, tool) == prefixed(other, its_tool) {
        if server.len() < other.len() {
            longer_names_run_into(server, tool, other, its_tool);
        } else if other.len() < server.len() {
            longer_names_run_into(other, its_tool, server, tool);
        } else {
            let a = "mcp__"@ + server;
            let b = "mcp__"@ + other;
            assert(prefixed(server, tool) =~= a + ("__"@ + tool));
            assert(prefixed(other, its_tool) =~= b + ("__"@ + its_tool));
            sums_from_equal_fronts(a, b, "__"@ + tool, "__"@ + its_tool);
            sums_from_equal_fronts("mcp__"@, "mcp__"@, server, other);
        }
    }
}

} // verus!
