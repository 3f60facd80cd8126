//! JSON-RPC 2.0 envelopes and the messages of the protocol.
use vstd::prelude::*;
use vstd::utf8::encode_utf8;

use crate::json::{
    Json, JsonView, NumberView, READABLE_DEPTH, empty_fields, entry, entry_push, json_read,
    no_fields, number, object, plain, printed, put, text, value_form,
};
use crate::json_laws::{last_entry, last_entry_push, printed_objects_hold_their_entries};
use crate::text::{decimal, decimal_of, labelled, push_to, same};

verus! {

pub const JSONRPC_VERSION: &'static str = "2.0";

pub const MCP_PROTOCOL_VERSION: &'static str = "2024-11-05";

/// The name under which the client introduces itself.
pub const CLIENT_NAME: &'static str = "runic";

/// The version under which the client introduces itself.
pub const CLIENT_VERSION: &'static str = "0.1.0";

/// A request.
#[derive(Debug)]
pub struct JsonRpcRequest {
    pub jsonrpc: String,
    pub id: u64,
    pub method: String,
    pub params: Option<Json>,
}

/// A request as JSON; without parameters it has no such field.
pub open spec fn request_json(
    jsonrpc: Seq<char>,
    id: u64,
    method: Seq<char>,
    params: Option<JsonView>,
) -> JsonView {
    let fields = no_fields().push(("jsonrpc"@, JsonView::Text(jsonrpc))).push(
        ("id"@, JsonView::Number(NumberView::Unsigned(id))),
    ).push(("method"@, JsonView::Text(method)));
    JsonView::Object(
        match params {
            Some(params) => fields.push(("params"@, params)),
            None => fields,
        },
    )
}

/// The model of a request.
pub ghost struct RequestView {
    pub jsonrpc: Seq<char>,
    pub id: u64,
    pub method: Seq<char>,
    pub params: Option<JsonView>,
}

impl DeepView for JsonRpcRequest {
    type V = RequestView;

    open spec fn deep_view(&self) -> RequestView {
        RequestView {
            jsonrpc: self.jsonrpc@,
            id: self.id,
            method: self.method@,
            params: self.params.deep_view(),
        }
    }
}

/// The request that a value spells.
pub open spec fn request_in(json: JsonView) -> Option<RequestView> {
    match (json.at("jsonrpc"@).text(), json.at("id"@).unsigned(), json.at("method"@).text()) {
        (Some(jsonrpc), Some(id), Some(method)) => Some(
            RequestView { jsonrpc, id, method, params: json.filled("params"@) },
        ),
        _ => None,
    }
}

/// A request reads back from its JSON as it was, unless its parameters are null, which
/// count as none.
pub proof fn requests_round_trip(request: RequestView)
    requires
        request.params != Some(JsonView::Null),
    ensures
        request_in(
            request_json(request.jsonrpc, request.id, request.method, request.params),
        ) == Some(request),
{
    broadcast use entry_push;

    reveal_strlit("jsonrpc");
    reveal_strlit("id");
    reveal_strlit("method");
    reveal_strlit("params");
    assert("method"@[0] != "params"@[0]);
    assert("jsonrpc"@.len() == 7 && "id"@.len() == 2 && "method"@.len() == 6);
    assert(entry(no_fields(), "jsonrpc"@) is None);
    assert(entry(no_fields(), "id"@) is None);
    assert(entry(no_fields(), "method"@) is None);
    assert(entry(no_fields(), "params"@) is None);
}

/// The request with its parameters as they are printed.
pub open spec fn as_printed(request: RequestView) -> RequestView {
    RequestView {
        params: match request.params {
            Some(params) => Some(value_form(params)),
            None => None,
        },
        ..request
    }
}

/// A request reads back from the tree that is printed of it, its parameters as they are
/// printed, unless they are null, which count as none.
pub proof fn printed_requests_round_trip(request: RequestView)
    requires
        request.params != Some(JsonView::Null),
    ensures
        request_in(
            value_form(
                request_json(request.jsonrpc, request.id, request.method, request.params),
            ),
        ) == Some(as_printed(request)),
{
    broadcast use last_entry_push;

    reveal_strlit("jsonrpc");
    reveal_strlit("id");
    reveal_strlit("method");
    reveal_strlit("params");
    assert("method"@[0] != "params"@[0]);
    assert("jsonrpc"@.len() == 7 && "id"@.len() == 2 && "method"@.len() == 6);
    let tree = request_json(request.jsonrpc, request.id, request.method, request.params);
    let fields = tree->Object_0;
    assert(last_entry(no_fields(), "params"@) is None);
    printed_objects_hold_their_entries(fields, "jsonrpc"@);
    printed_objects_hold_their_entries(fields, "id"@);
    printed_objects_hold_their_entries(fields, "method"@);
    printed_objects_hold_their_entries(fields, "params"@);
}

impl JsonRpcRequest {
    /// The request that a value spells.
    pub fn from_json(json: &Json) -> (r: Option<JsonRpcRequest>)
        ensures
            r.deep_view() == request_in(json.deep_view()),
    {
        match (json.text_at("jsonrpc"), json.unsigned_at("id"), json.text_at("method")) {
            (Some(jsonrpc), Some(id), Some(method)) => Some(
                JsonRpcRequest {
                    jsonrpc: jsonrpc.clone(),
                    id,
                    method: method.clone(),
                    params: copied(json.filled_at("params")),
                },
            ),
            _ => None,
        }
    }

    /// A request of the given number.
    pub fn new(id: u64, method: &str, params: Option<Json>) -> (r: JsonRpcRequest)
        ensures
            r.jsonrpc@ == JSONRPC_VERSION@,
            r.id == id,
            r.method@ == method@,
            r.params == params,
    {
        JsonRpcRequest {
            jsonrpc: JSONRPC_VERSION.to_owned(),
            id,
            method: method.to_owned(),
            params,
        }
    }

    /// The request as JSON.
    pub fn to_json(&self) -> (r: Json)
        ensures
            r.deep_view() == request_json(
                self.jsonrpc@,
                self.id,
                self.method@,
                self.params.deep_view(),
            ),
    {
        let mut fields = empty_fields();
        put(&mut fields, "jsonrpc", Json::Text(self.jsonrpc.clone()));
        put(&mut fields, "id", number(self.id));
        put(&mut fields, "method", Json::Text(self.method.clone()));
        match &self.params {
            Some(params) => {
                put(&mut fields, "params", params.clone());
            },
            None => {},
        }
        object(fields)
    }

    /// The request as text. It is read back as it was, unless its parameters are null, as long
    /// as it is no deeper than what can be read and all its numbers are whole.
    pub fn print(&self) -> (r: String)
        ensures
            r@ == printed(
                request_json(self.jsonrpc@, self.id, self.method@, self.params.deep_view()),
            ),
            self.params.deep_view() != Some(JsonView::Null) && plain(
                value_form(
                    request_json(self.jsonrpc@, self.id, self.method@, self.params.deep_view()),
                ),
                READABLE_DEPTH as nat,
            ) ==> match json_read(r@) {
                Ok(tree) => request_in(tree) == Some(as_printed(self.deep_view())),
                Err(_) => false,
            },
    {
        proof {
            if self.params.deep_view() != Some(JsonView::Null) {
                printed_requests_round_trip(self.deep_view());
            }
        }
        self.to_json().print()
    }

    /// The request as a line to send.
    pub fn to_line(&self) -> (r: String)
        ensures
            r@ == printed(
                request_json(self.jsonrpc@, self.id, self.method@, self.params.deep_view()),
            ) + "\n"@,
    {
        let mut out = self.print();
        out.append("\n");
        out
    }
}

/// A message that wants no answer.
#[derive(Debug)]
pub struct JsonRpcNotification {
    pub jsonrpc: String,
    pub method: String,
    pub params: Option<Json>,
}

/// A notification as JSON; without parameters it has no such field.
pub open spec fn notification_json(
    jsonrpc: Seq<char>,
    method: Seq<char>,
    params: Option<JsonView>,
) -> JsonView {
    let fields = no_fields().push(("jsonrpc"@, JsonView::Text(jsonrpc))).push(
        ("method"@, JsonView::Text(method)),
    );
    JsonView::Object(
        match params {
            Some(params) => fields.push(("params"@, params)),
            None => fields,
        },
    )
}

impl JsonRpcNotification {
    /// A notification of the given method.
    pub fn new(method: &str, params: Option<Json>) -> (r: JsonRpcNotification)
        ensures
            r.jsonrpc@ == JSONRPC_VERSION@,
            r.method@ == method@,
            r.params == params,
    {
        JsonRpcNotification {
            jsonrpc: JSONRPC_VERSION.to_owned(),
            method: method.to_owned(),
            params,
        }
    }

    /// The notification as JSON.
    pub fn to_json(&self) -> (r: Json)
        ensures
            r.deep_view() == notification_json(
                self.jsonrpc@,
                self.method@,
                self.params.deep_view(),
            ),
    {
        let mut fields = empty_fields();
        put(&mut fields, "jsonrpc", Json::Text(self.jsonrpc.clone()));
        put(&mut fields, "method", Json::Text(self.method.clone()));
        match &self.params {
            Some(params) => {
                put(&mut fields, "params", params.clone());
            },
            None => {},
        }
        object(fields)
    }

    /// The notification as a line to send.
    pub fn to_line(&self) -> (r: String)
        ensures
            r@ == printed(
                notification_json(self.jsonrpc@, self.method@, self.params.deep_view()),
            ) + "\n"@,
    {
        let mut out = self.to_json().print();
        out.append("\n");
        out
    }
}

/// An error in a response.
#[derive(Debug)]
pub struct JsonRpcError {
    pub code: i64,
    pub message: String,
    pub data: Option<Json>,
}

/// The model of an error in a response.
pub ghost struct RpcErrorView {
    pub code: i64,
    pub message: Seq<char>,
    pub data: Option<JsonView>,
}

impl DeepView for JsonRpcError {
    type V = RpcErrorView;

    open spec fn deep_view(&self) -> RpcErrorView {
        RpcErrorView { code: self.code, message: self.message@, data: self.data.deep_view() }
    }
}

/// The error that a value spells.
pub open spec fn rpc_error_in(json: JsonView) -> Option<RpcErrorView> {
    match (json.at("code"@).signed(), json.at("message"@).text()) {
        (Some(code), Some(message)) => Some(
            RpcErrorView { code, message, data: json.filled("data"@) },
        ),
        _ => None,
    }
}

/// A copy of an optional value.
pub fn copied(value: Option<&Json>) -> (r: Option<Json>)
    ensures
        r.deep_view() == value.deep_view(),
{
    match value {
        Some(value) => Some(value.clone()),
        None => None,
    }
}

impl JsonRpcError {
    /// The error that a value spells.
    pub fn from_json(json: &Json) -> (r: Option<JsonRpcError>)
        ensures
            r.deep_view() == rpc_error_in(json.deep_view()),
    {
        let code = match json.get("code") {
            Some(value) => value.as_signed(),
            None => None,
        };
        match (code, json.text_at("message")) {
            (Some(code), Some(message)) => Some(
                JsonRpcError {
                    code,
                    message: message.clone(),
                    data: copied(json.filled_at("data")),
                },
            ),
            _ => None,
        }
    }
}

/// A response.
#[derive(Debug)]
pub struct JsonRpcResponse {
    pub jsonrpc: String,
    pub id: u64,
    pub result: Option<Json>,
    pub error: Option<JsonRpcError>,
}

/// The model of a response.
pub ghost struct ResponseView {
    pub jsonrpc: Seq<char>,
    pub id: u64,
    pub result: Option<JsonView>,
    pub error: Option<RpcErrorView>,
}

impl DeepView for JsonRpcResponse {
    type V = ResponseView;

    open spec fn deep_view(&self) -> ResponseView {
        ResponseView {
            jsonrpc: self.jsonrpc@,
            id: self.id,
            result: self.result.deep_view(),
            error: self.error.deep_view(),
        }
    }
}

/// The response that a value spells: an object with a version and an id, and a result or
/// an error.
pub open spec fn response_in(json: JsonView) -> Option<ResponseView> {
    match (json.at("jsonrpc"@).text(), json.at("id"@).unsigned()) {
        (Some(jsonrpc), Some(id)) => {
            let result = json.filled("result"@);
            match json.filled("error"@) {
                None => Some(ResponseView { jsonrpc, id, result, error: None }),
                Some(value) => match rpc_error_in(value) {
                    Some(error) => Some(ResponseView { jsonrpc, id, result, error: Some(error) }),
                    None => None,
                },
            }
        },
        _ => None,
    }
}

/// The response that a text spells, as it was read.
pub open spec fn response_read(read: Result<JsonView, Seq<char>>) -> Option<ResponseView> {
    match read {
        Ok(json) => response_in(json),
        Err(_) => None,
    }
}

impl JsonRpcResponse {
    /// The response that a value spells.
    pub fn from_json(json: &Json) -> (r: Option<JsonRpcResponse>)
        ensures
            r.deep_view() == response_in(json.deep_view()),
    {
        match (json.text_at("jsonrpc"), json.unsigned_at("id")) {
            (Some(jsonrpc), Some(id)) => {
                let result = copied(json.filled_at("result"));
                match json.filled_at("error") {
                    None => Some(
                        JsonRpcResponse { jsonrpc: jsonrpc.clone(), id, result, error: None },
                    ),
                    Some(value) => match JsonRpcError::from_json(value) {
                        Some(error) => Some(
                            JsonRpcResponse {
                                jsonrpc: jsonrpc.clone(),
                                id,
                                result,
                                error: Some(error),
                            },
                        ),
                        None => None,
                    },
                }
            },
            _ => None,
        }
    }

    /// The response that a text spells.
    pub fn parse(text: &str) -> (r: Option<JsonRpcResponse>)
        ensures
            r.deep_view() == response_read(json_read(text@)),
    {
        match Json::parse(text) {
            Ok(json) => JsonRpcResponse::from_json(&json),
            Err(_) => None,
        }
    }
}

/// What the client can do: nothing in particular so far.
#[derive(Debug)]
pub struct ClientCapabilities {
    pub experimental: Option<Json>,
    pub sampling: Option<Json>,
    pub roots: Option<Json>,
}

impl Default for ClientCapabilities {
    fn default() -> (r: ClientCapabilities)
        ensures
            r.experimental is None,
            r.sampling is None,
            r.roots is None,
    {
        ClientCapabilities { experimental: None, sampling: None, roots: None }
    }
}

/// Who the client is.
#[derive(Debug)]
pub struct ClientInfo {
    pub name: String,
    pub version: String,
}

impl Default for ClientInfo {
    fn default() -> (r: ClientInfo)
        ensures
            r.name@ == CLIENT_NAME@,
            r.version@ == CLIENT_VERSION@,
    {
        ClientInfo { name: CLIENT_NAME.to_owned(), version: CLIENT_VERSION.to_owned() }
    }
}

/// How the client introduces itself.
#[derive(Debug)]
pub struct InitializeParams {
    pub protocol_version: String,
    pub capabilities: ClientCapabilities,
    pub client_info: ClientInfo,
}

/// The fields with an optional one put behind them.
pub open spec fn with_optional(
    fields: Seq<(Seq<char>, JsonView)>,
    key: Seq<char>,
    value: Option<JsonView>,
) -> Seq<(Seq<char>, JsonView)> {
    match value {
        Some(value) => fields.push((key, value)),
        None => fields,
    }
}

fn put_optional(fields: &mut Vec<(String, Json)>, key: &str, value: &Option<Json>)
    ensures
        final(fields).deep_view() == with_optional(
            old(fields).deep_view(),
            key@,
            value.deep_view(),
        ),
{
    match value {
        Some(value) => {
            put(fields, key, value.clone());
        },
        None => {},
    }
}

/// The parameters of an introduction as JSON.
pub open spec fn initialize_json(params: InitializeParams) -> JsonView {
    let capabilities = with_optional(
        with_optional(
            with_optional(no_fields(), "experimental"@, params.capabilities.experimental.deep_view()),
            "sampling"@,
            params.capabilities.sampling.deep_view(),
        ),
        "roots"@,
        params.capabilities.roots.deep_view(),
    );
    let info = no_fields().push(("name"@, JsonView::Text(params.client_info.name@))).push(
        ("version"@, JsonView::Text(params.client_info.version@)),
    );
    JsonView::Object(
        no_fields().push(("protocolVersion"@, JsonView::Text(params.protocol_version@))).push(
            ("capabilities"@, JsonView::Object(capabilities)),
        ).push(("clientInfo"@, JsonView::Object(info))),
    )
}

/// The introduction of this client as JSON: it has no capabilities of its own.
pub open spec fn introduction() -> JsonView {
    JsonView::Object(
        no_fields().push(("protocolVersion"@, JsonView::Text(MCP_PROTOCOL_VERSION@))).push(
            ("capabilities"@, JsonView::Object(no_fields())),
        ).push(
            (
                "clientInfo"@,
                JsonView::Object(
                    no_fields().push(("name"@, JsonView::Text(CLIENT_NAME@))).push(
                        ("version"@, JsonView::Text(CLIENT_VERSION@)),
                    ),
                ),
            ),
        ),
    )
}

impl InitializeParams {
    /// The introduction of this client.
    pub fn of_this_client() -> (r: InitializeParams)
        ensures
            r.protocol_version@ == MCP_PROTOCOL_VERSION@,
            r.capabilities.experimental is None,
            r.capabilities.sampling is None,
            r.capabilities.roots is None,
            r.client_info.name@ == CLIENT_NAME@,
            r.client_info.version@ == CLIENT_VERSION@,
            initialize_json(r) == introduction(),
    {
        InitializeParams {
            protocol_version: MCP_PROTOCOL_VERSION.to_owned(),
            capabilities: ClientCapabilities::default(),
            client_info: ClientInfo::default(),
        }
    }

    /// The parameters as JSON.
    pub fn to_json(&self) -> (r: Json)
        ensures
            r.deep_view() == initialize_json(*self),
    {
        let mut capabilities = empty_fields();
        put_optional(&mut capabilities, "experimental", &self.capabilities.experimental);
        put_optional(&mut capabilities, "sampling", &self.capabilities.sampling);
        put_optional(&mut capabilities, "roots", &self.capabilities.roots);
        let mut info = empty_fields();
        put(&mut info, "name", Json::Text(self.client_info.name.clone()));
        put(&mut info, "version", Json::Text(self.client_info.version.clone()));
        let mut fields = empty_fields();
        put(&mut fields, "protocolVersion", Json::Text(self.protocol_version.clone()));
        put(&mut fields, "capabilities", object(capabilities));
        put(&mut fields, "clientInfo", object(info));
        object(fields)
    }
}

/// What a server can do with tools.
#[derive(Debug, PartialEq)]
pub struct ToolsCapability {
    pub list_changed: Option<bool>,
}

/// What a server can do with resources.
#[derive(Debug, PartialEq)]
pub struct ResourcesCapability {
    pub subscribe: Option<bool>,
    pub list_changed: Option<bool>,
}

/// What a server can do with prompts.
#[derive(Debug, PartialEq)]
pub struct PromptsCapability {
    pub list_changed: Option<bool>,
}

/// What a server can do.
#[derive(Debug, PartialEq)]
pub struct ServerCapabilities {
    pub tools: Option<ToolsCapability>,
    pub resources: Option<ResourcesCapability>,
    pub prompts: Option<PromptsCapability>,
    pub logging: Option<Json>,
    pub experimental: Option<Json>,
}

/// The model of what a server can do.
pub ghost struct CapabilitiesView {
    pub tools: Option<ToolsCapability>,
    pub resources: Option<ResourcesCapability>,
    pub prompts: Option<PromptsCapability>,
    pub logging: Option<JsonView>,
    pub experimental: Option<JsonView>,
}

impl DeepView for ServerCapabilities {
    type V = CapabilitiesView;

    open spec fn deep_view(&self) -> CapabilitiesView {
        CapabilitiesView {
            tools: self.tools,
            resources: self.resources,
            prompts: self.prompts,
            logging: self.logging.deep_view(),
            experimental: self.experimental.deep_view(),
        }
    }
}

/// The capability that a value spells; the outer `None` where it spells none.
pub open spec fn tools_in(value: Option<JsonView>) -> Option<Option<ToolsCapability>> {
    match value {
        None => Some(None),
        Some(json) => match (json is Object, json.optional_flag("listChanged"@)) {
            (true, Some(list_changed)) => Some(Some(ToolsCapability { list_changed })),
            _ => None,
        },
    }
}

/// The capability that a value spells; the outer `None` where it spells none.
pub open spec fn resources_in(value: Option<JsonView>) -> Option<Option<ResourcesCapability>> {
    match value {
        None => Some(None),
        Some(json) => match (
            json is Object,
            json.optional_flag("subscribe"@),
            json.optional_flag("listChanged"@),
        ) {
            (true, Some(subscribe), Some(list_changed)) => Some(
                Some(ResourcesCapability { subscribe, list_changed }),
            ),
            _ => None,
        },
    }
}

/// The capability that a value spells; the outer `None` where it spells none.
pub open spec fn prompts_in(value: Option<JsonView>) -> Option<Option<PromptsCapability>> {
    match value {
        None => Some(None),
        Some(json) => match (json is Object, json.optional_flag("listChanged"@)) {
            (true, Some(list_changed)) => Some(Some(PromptsCapability { list_changed })),
            _ => None,
        },
    }
}

/// The capabilities that a value spells.
pub open spec fn capabilities_in(json: JsonView) -> Option<CapabilitiesView> {
    match (
        json is Object,
        tools_in(json.filled("tools"@)),
        resources_in(json.filled("resources"@)),
        prompts_in(json.filled("prompts"@)),
    ) {
        (true, Some(tools), Some(resources), Some(prompts)) => Some(
            CapabilitiesView {
                tools,
                resources,
                prompts,
                logging: json.filled("logging"@),
                experimental: json.filled("experimental"@),
            },
        ),
        _ => None,
    }
}

fn is_object(json: &Json) -> (r: bool)
    ensures
        r == (json.deep_view() is Object),
{
    match json {
        Json::Object(_) => true,
        _ => false,
    }
}

impl ServerCapabilities {
    /// The capabilities that a value spells.
    pub fn from_json(json: &Json) -> (r: Option<ServerCapabilities>)
        ensures
            r.deep_view() == capabilities_in(json.deep_view()),
    {
        if !is_object(json) {
            return None;
        }
        let tools = match json.filled_at("tools") {
            None => None,
            Some(value) => match (is_object(value), value.optional_flag_at("listChanged")) {
                (true, Some(list_changed)) => Some(ToolsCapability { list_changed }),
                _ => {
                    return None;
                },
            },
        };
        let resources = match json.filled_at("resources") {
            None => None,
            Some(value) => match (
                is_object(value),
                value.optional_flag_at("subscribe"),
                value.optional_flag_at("listChanged"),
            ) {
                (true, Some(subscribe), Some(list_changed)) => Some(
                    ResourcesCapability { subscribe, list_changed },
                ),
                _ => {
                    return None;
                },
            },
        };
        let prompts = match json.filled_at("prompts") {
            None => None,
            Some(value) => match (is_object(value), value.optional_flag_at("listChanged")) {
                (true, Some(list_changed)) => Some(PromptsCapability { list_changed }),
                _ => {
                    return None;
                },
            },
        };
        Some(
            ServerCapabilities {
                tools,
                resources,
                prompts,
                logging: copied(json.filled_at("logging")),
                experimental: copied(json.filled_at("experimental")),
            },
        )
    }
}

/// Who a server is.
#[derive(Debug, PartialEq)]
pub struct ServerInfo {
    pub name: String,
    pub version: String,
}

/// How a server answers an introduction.
#[derive(Debug, PartialEq)]
pub struct InitializeResult {
    pub protocol_version: String,
    pub capabilities: ServerCapabilities,
    pub server_info: ServerInfo,
    pub instructions: Option<String>,
}

/// The model of the answer to an introduction.
pub ghost struct InitializeView {
    pub protocol_version: Seq<char>,
    pub capabilities: CapabilitiesView,
    pub server_name: Seq<char>,
    pub server_version: Seq<char>,
    pub instructions: Option<Seq<char>>,
}

impl DeepView for InitializeResult {
    type V = InitializeView;

    open spec fn deep_view(&self) -> InitializeView {
        InitializeView {
            protocol_version: self.protocol_version@,
            capabilities: self.capabilities.deep_view(),
            server_name: self.server_info.name@,
            server_version: self.server_info.version@,
            instructions: self.instructions.deep_view(),
        }
    }
}

/// The answer to an introduction that a value spells.
pub open spec fn initialize_in(json: JsonView) -> Option<InitializeView> {
    match (
        json.at("protocolVersion"@).text(),
        capabilities_in(json.at("capabilities"@)),
        json.at("serverInfo"@).at("name"@).text(),
        json.at("serverInfo"@).at("version"@).text(),
        json.optional_text("instructions"@),
    ) {
        (
            Some(protocol_version),
            Some(capabilities),
            Some(server_name),
            Some(server_version),
            Some(instructions),
        ) => Some(
            InitializeView {
                protocol_version,
                capabilities,
                server_name,
                server_version,
                instructions,
            },
        ),
        _ => None,
    }
}

impl InitializeResult {
    /// The answer to an introduction that a value spells.
    pub fn from_json(json: &Json) -> (r: Option<InitializeResult>)
        ensures
            r.deep_view() == initialize_in(json.deep_view()),
    {
        let capabilities = match json.get("capabilities") {
            Some(value) => ServerCapabilities::from_json(value),
            None => None,
        };
        let (name, version) = match json.get("serverInfo") {
            Some(info) => (info.text_at("name"), info.text_at("version")),
            None => (None, None),
        };
        match (
            json.text_at("protocolVersion"),
            capabilities,
            name,
            version,
            json.optional_text_at("instructions"),
        ) {
            (
                Some(protocol_version),
                Some(capabilities),
                Some(name),
                Some(version),
                Some(instructions),
            ) => Some(
                InitializeResult {
                    protocol_version: protocol_version.clone(),
                    capabilities,
                    server_info: ServerInfo { name: name.clone(), version: version.clone() },
                    instructions,
                },
            ),
            _ => None,
        }
    }
}

/// A tool that a server has.
#[derive(Debug, PartialEq)]
pub struct McpToolDef {
    pub name: String,
    pub description: Option<String>,
    pub input_schema: Json,
}

/// The model of a tool that a server has.
pub ghost struct ToolDefView {
    pub name: Seq<char>,
    pub description: Option<Seq<char>>,
    pub input_schema: JsonView,
}

impl DeepView for McpToolDef {
    type V = ToolDefView;

    open spec fn deep_view(&self) -> ToolDefView {
        ToolDefView {
            name: self.name@,
            description: self.description.deep_view(),
            input_schema: self.input_schema.deep_view(),
        }
    }
}

impl Clone for McpToolDef {
    fn clone(&self) -> (r: McpToolDef)
        ensures
            r.deep_view() == self.deep_view(),
    {
        McpToolDef {
            name: self.name.clone(),
            description: self.description.clone(),
            input_schema: self.input_schema.clone(),
        }
    }
}

/// The tool that a value spells.
pub open spec fn tool_in(json: JsonView) -> Option<ToolDefView> {
    match (
        json.at("name"@).text(),
        json.optional_text("description"@),
        json.get("inputSchema"@),
    ) {
        (Some(name), Some(description), Some(input_schema)) => Some(
            ToolDefView { name, description, input_schema },
        ),
        _ => None,
    }
}

/// The tools that values spell, where each spells one.
pub open spec fn tools_listed(items: Seq<JsonView>) -> Option<Seq<ToolDefView>>
    decreases items.len(),
{
    if items.len() == 0 {
        Some(Seq::empty())
    } else {
        match (tools_listed(items.drop_last()), tool_in(items.last())) {
            (Some(before), Some(tool)) => Some(before.push(tool)),
            _ => None,
        }
    }
}

impl McpToolDef {
    /// The tool that a value spells.
    pub fn from_json(json: &Json) -> (r: Option<McpToolDef>)
        ensures
            r.deep_view() == tool_in(json.deep_view()),
    {
        match (json.text_at("name"), json.optional_text_at("description"), json.get("inputSchema")) {
            (Some(name), Some(description), Some(schema)) => Some(
                McpToolDef { name: name.clone(), description, input_schema: schema.clone() },
            ),
            _ => None,
        }
    }
}

/// The answer to a request for tools.
#[derive(Debug)]
pub struct ListToolsResult {
    pub tools: Vec<McpToolDef>,
    pub next_cursor: Option<String>,
}

/// The model of the answer to a request for tools.
pub ghost struct ListToolsView {
    pub tools: Seq<ToolDefView>,
    pub next_cursor: Option<Seq<char>>,
}

impl DeepView for ListToolsResult {
    type V = ListToolsView;

    open spec fn deep_view(&self) -> ListToolsView {
        ListToolsView { tools: self.tools.deep_view(), next_cursor: self.next_cursor.deep_view() }
    }
}

/// The answer to a request for tools that a value spells.
pub open spec fn list_tools_in(json: JsonView) -> Option<ListToolsView> {
    match (json.at("tools"@).items(), json.optional_text("next_cursor"@)) {
        (Some(items), Some(next_cursor)) => match tools_listed(items) {
            Some(tools) => Some(ListToolsView { tools, next_cursor }),
            None => None,
        },
        _ => None,
    }
}

proof fn unlisted_stays_unlisted(items: Seq<JsonView>, k: int)
    requires
        0 <= k <= items.len(),
        tools_listed(items.take(k)) is None,
    ensures
        tools_listed(items) is None,
    decreases items.len() - k,
{
    if k < items.len() {
        assert(items.take(k + 1).drop_last() =~= items.take(k));
        unlisted_stays_unlisted(items, k + 1);
    } else {
        assert(items.take(k) =~= items);
    }
}

impl ListToolsResult {
    /// The answer to a request for tools that a value spells.
    pub fn from_json(json: &Json) -> (r: Option<ListToolsResult>)
        ensures
            r.deep_view() == list_tools_in(json.deep_view()),
    {
        let (items, next_cursor) = match (
            json.items_at("tools"),
            json.optional_text_at("next_cursor"),
        ) {
            (Some(items), Some(next_cursor)) => (items, next_cursor),
            _ => {
                return None;
            },
        };
        let mut tools: Vec<McpToolDef> = Vec::new();
        let mut i: usize = 0;
        let ghost all = items.deep_view();
        assert(tools.deep_view() =~= Seq::empty());
        while i < items.len()
            invariant
                i <= items@.len(),
                all == items.deep_view(),
                json.deep_view().at("tools"@).items() == Some(all),
                tools_listed(all.take(i as int)) == Some(tools.deep_view()),
            decreases items@.len() - i,
        {
            proof {
                assert(all.take(i + 1).drop_last() =~= all.take(i as int));
            }
            match McpToolDef::from_json(&items[i]) {
                Some(tool) => {
                    push_to(&mut tools, tool);
                },
                None => {
                    proof {
                        unlisted_stays_unlisted(all, i + 1);
                    }
                    return None;
                },
            }
            i = i + 1;
        }
        assert(all.take(i as int) =~= all);
        Some(ListToolsResult { tools, next_cursor })
    }
}

/// A call of a tool.
#[derive(Debug)]
pub struct CallToolParams {
    pub name: String,
    pub arguments: Option<Json>,
}

/// A call of a tool as JSON.
pub open spec fn call_json(name: Seq<char>, arguments: Option<JsonView>) -> JsonView {
    JsonView::Object(
        with_optional(no_fields().push(("name"@, JsonView::Text(name))), "arguments"@, arguments),
    )
}

impl CallToolParams {
    /// The call as JSON.
    pub fn to_json(&self) -> (r: Json)
        ensures
            r.deep_view() == call_json(self.name@, self.arguments.deep_view()),
    {
        let mut fields = empty_fields();
        put(&mut fields, "name", Json::Text(self.name.clone()));
        put_optional(&mut fields, "arguments", &self.arguments);
        object(fields)
    }
}

/// A resource in a tool's answer.
#[derive(Debug, PartialEq)]
pub struct ResourceContent {
    pub uri: String,
    pub mime_type: Option<String>,
    pub text: Option<String>,
    pub blob: Option<String>,
}

/// A block of a tool's answer.
#[derive(Debug, PartialEq)]
pub enum ContentBlock {
    Text { text: String },
    Image { data: String, mime_type: String },
    Resource { resource: ResourceContent },
}

/// The model of a block of a tool's answer.
#[allow(inconsistent_fields)]
pub ghost enum ContentView {
    Text { text: Seq<char> },
    Image { data: Seq<char>, mime_type: Seq<char> },
    Resource {
        uri: Seq<char>,
        mime_type: Option<Seq<char>>,
        text: Option<Seq<char>>,
        blob: Option<Seq<char>>,
    },
}

impl DeepView for ContentBlock {
    type V = ContentView;

    open spec fn deep_view(&self) -> ContentView {
        match *self {
            ContentBlock::Text { text } => ContentView::Text { text: text@ },
            ContentBlock::Image { data, mime_type } => ContentView::Image {
                data: data@,
                mime_type: mime_type@,
            },
            ContentBlock::Resource { resource } => ContentView::Resource {
                uri: resource.uri@,
                mime_type: resource.mime_type.deep_view(),
                text: resource.text.deep_view(),
                blob: resource.blob.deep_view(),
            },
        }
    }
}

/// The resource that a value spells.
pub open spec fn resource_in(json: JsonView) -> Option<ContentView> {
    match (
        json.at("uri"@).text(),
        json.optional_text("mimeType"@),
        json.optional_text("text"@),
        json.optional_text("blob"@),
    ) {
        (Some(uri), Some(mime_type), Some(text), Some(blob)) => Some(
            ContentView::Resource { uri, mime_type, text, blob },
        ),
        _ => None,
    }
}

/// The block that a value spells, told apart by its type.
pub open spec fn content_in(json: JsonView) -> Option<ContentView> {
    let kind = json.at("type"@).text();
    if kind == Some("text"@) {
        match json.at("text"@).text() {
            Some(text) => Some(ContentView::Text { text }),
            None => None,
        }
    } else if kind == Some("image"@) {
        match (json.at("data"@).text(), json.at("mimeType"@).text()) {
            (Some(data), Some(mime_type)) => Some(ContentView::Image { data, mime_type }),
            _ => None,
        }
    } else if kind == Some("resource"@) {
        resource_in(json.at("resource"@))
    } else {
        None
    }
}

impl ContentBlock {
    /// The block that a value spells.
    pub fn from_json(json: &Json) -> (r: Option<ContentBlock>)
        ensures
            r.deep_view() == content_in(json.deep_view()),
    {
        let kind = match json.text_at("type") {
            Some(kind) => kind,
            None => {
                return None;
            },
        };
        if same(kind.as_str(), "text") {
            match json.text_at("text") {
                Some(text) => Some(ContentBlock::Text { text: text.clone() }),
                None => None,
            }
        } else if same(kind.as_str(), "image") {
            match (json.text_at("data"), json.text_at("mimeType")) {
                (Some(data), Some(mime_type)) => Some(
                    ContentBlock::Image { data: data.clone(), mime_type: mime_type.clone() },
                ),
                _ => None,
            }
        } else if same(kind.as_str(), "resource") {
            match json.get("resource") {
                Some(value) => match (
                    value.text_at("uri"),
                    value.optional_text_at("mimeType"),
                    value.optional_text_at("text"),
                    value.optional_text_at("blob"),
                ) {
                    (Some(uri), Some(mime_type), Some(text), Some(blob)) => Some(
                        ContentBlock::Resource {
                            resource: ResourceContent { uri: uri.clone(), mime_type, text, blob },
                        },
                    ),
                    _ => None,
                },
                None => None,
            }
        } else {
            None
        }
    }

    /// The block as JSON.
    pub fn to_json(&self) -> (r: Json)
        ensures
            r.deep_view() == content_json(self.deep_view()),
    {
        let mut fields = empty_fields();
        match self {
            ContentBlock::Text { text: said } => {
                put(&mut fields, "type", text("text"));
                put(&mut fields, "text", Json::Text(said.clone()));
            },
            ContentBlock::Image { data, mime_type } => {
                put(&mut fields, "type", text("image"));
                put(&mut fields, "data", Json::Text(data.clone()));
                put(&mut fields, "mimeType", Json::Text(mime_type.clone()));
            },
            ContentBlock::Resource { resource } => {
                let mut inner = empty_fields();
                put(&mut inner, "uri", Json::Text(resource.uri.clone()));
                put_text(&mut inner, "mimeType", &resource.mime_type);
                put_text(&mut inner, "text", &resource.text);
                put_text(&mut inner, "blob", &resource.blob);
                put(&mut fields, "type", text("resource"));
                put(&mut fields, "resource", object(inner));
            },
        }
        object(fields)
    }
}

fn put_text(fields: &mut Vec<(String, Json)>, key: &str, value: &Option<String>)
    ensures
        final(fields).deep_view() == with_optional(
            old(fields).deep_view(),
            key@,
            text_value(value.deep_view()),
        ),
{
    match value {
        Some(value) => {
            put(fields, key, Json::Text(value.clone()));
        },
        None => {},
    }
}

/// An optional text as an optional value.
pub open spec fn text_value(value: Option<Seq<char>>) -> Option<JsonView> {
    match value {
        Some(t) => Some(JsonView::Text(t)),
        None => None,
    }
}

/// A block as JSON.
pub open spec fn content_json(block: ContentView) -> JsonView {
    match block {
        ContentView::Text { text } => JsonView::Object(
            no_fields().push(("type"@, JsonView::Text("text"@))).push(
                ("text"@, JsonView::Text(text)),
            ),
        ),
        ContentView::Image { data, mime_type } => JsonView::Object(
            no_fields().push(("type"@, JsonView::Text("image"@))).push(
                ("data"@, JsonView::Text(data)),
            ).push(("mimeType"@, JsonView::Text(mime_type))),
        ),
        ContentView::Resource { uri, mime_type, text, blob } => JsonView::Object(
            no_fields().push(("type"@, JsonView::Text("resource"@))).push(
                (
                    "resource"@,
                    JsonView::Object(
                        with_optional(
                            with_optional(
                                with_optional(
                                    no_fields().push(("uri"@, JsonView::Text(uri))),
                                    "mimeType"@,
                                    text_value(mime_type),
                                ),
                                "text"@,
                                text_value(text),
                            ),
                            "blob"@,
                            text_value(blob),
                        ),
                    ),
                ),
            ),
        ),
    }
}

/// A block reads back from its JSON as it was.
pub proof fn contents_round_trip(block: ContentView)
    ensures
        content_in(content_json(block)) == Some(block),
{
    broadcast use entry_push;

    reveal_strlit("type");
    reveal_strlit("text");
    reveal_strlit("data");
    reveal_strlit("image");
    reveal_strlit("mimeType");
    reveal_strlit("resource");
    reveal_strlit("uri");
    reveal_strlit("blob");
    assert("type"@[0] != "data"@[0] && "type"@[1] != "text"@[1]);
    assert("text"@[0] != "blob"@[0]);
    assert("mimeType"@.len() == 8 && "uri"@.len() == 3 && "resource"@[0] != "mimeType"@[0]);
    assert("type"@.len() == 4 && "text"@.len() == 4 && "image"@.len() == 5);
    assert("blob"@.len() == 4 && "data"@.len() == 4 && "resource"@.len() == 8);
    assert forall|key: Seq<char>| #[trigger] entry(no_fields(), key) is None by {}
    match block {
        ContentView::Text { text } => {},
        ContentView::Image { data, mime_type } => {},
        ContentView::Resource { uri, mime_type, text, blob } => {
            let f1 = no_fields().push(("uri"@, JsonView::Text(uri)));
            let f2 = with_optional(f1, "mimeType"@, text_value(mime_type));
            let f3 = with_optional(f2, "text"@, text_value(text));
            let f4 = with_optional(f3, "blob"@, text_value(blob));
            assert(entry(f2, "uri"@) == Some(JsonView::Text(uri)));
            assert(entry(f3, "uri"@) == Some(JsonView::Text(uri)));
            assert(entry(f4, "uri"@) == Some(JsonView::Text(uri)));
            assert(entry(f4, "mimeType"@) == text_value(mime_type));
            assert(entry(f4, "text"@) == text_value(text));
            assert(entry(f4, "blob"@) == text_value(blob));
        },
    }
}

/// A tool's answer.
#[derive(Debug)]
pub struct CallToolResult {
    pub content: Vec<ContentBlock>,
    pub structured_content: Option<Json>,
    pub is_error: Option<bool>,
}

/// The model of a tool's answer.
pub ghost struct CallResultView {
    pub content: Seq<ContentView>,
    pub structured_content: Option<JsonView>,
    pub is_error: Option<bool>,
}

impl DeepView for CallToolResult {
    type V = CallResultView;

    open spec fn deep_view(&self) -> CallResultView {
        CallResultView {
            content: self.content.deep_view(),
            structured_content: self.structured_content.deep_view(),
            is_error: self.is_error,
        }
    }
}

/// The blocks that values spell, where each spells one.
pub open spec fn contents_in(items: Seq<JsonView>) -> Option<Seq<ContentView>>
    decreases items.len(),
{
    if items.len() == 0 {
        Some(Seq::empty())
    } else {
        match (contents_in(items.drop_last()), content_in(items.last())) {
            (Some(before), Some(block)) => Some(before.push(block)),
            _ => None,
        }
    }
}

proof fn unread_stays_unread(items: Seq<JsonView>, k: int)
    requires
        0 <= k <= items.len(),
        contents_in(items.take(k)) is None,
    ensures
        contents_in(items) is None,
    decreases items.len() - k,
{
    if k < items.len() {
        assert(items.take(k + 1).drop_last() =~= items.take(k));
        unread_stays_unread(items, k + 1);
    } else {
        assert(items.take(k) =~= items);
    }
}

/// The answer of a tool that a value spells.
pub open spec fn call_result_in(json: JsonView) -> Option<CallResultView> {
    match (json.at("content"@).items(), json.optional_flag("isError"@)) {
        (Some(items), Some(is_error)) => match contents_in(items) {
            Some(content) => Some(
                CallResultView {
                    content,
                    structured_content: json.filled("structuredContent"@),
                    is_error,
                },
            ),
            None => None,
        },
        _ => None,
    }
}

impl CallToolResult {
    /// The answer of a tool that a value spells.
    pub fn from_json(json: &Json) -> (r: Option<CallToolResult>)
        ensures
            r.deep_view() == call_result_in(json.deep_view()),
    {
        let (items, is_error) = match (json.items_at("content"), json.optional_flag_at("isError")) {
            (Some(items), Some(is_error)) => (items, is_error),
            _ => {
                return None;
            },
        };
        let mut content: Vec<ContentBlock> = Vec::new();
        let mut i: usize = 0;
        let ghost all = items.deep_view();
        assert(content.deep_view() =~= Seq::empty());
        while i < items.len()
            invariant
                i <= items@.len(),
                all == items.deep_view(),
                json.deep_view().at("content"@).items() == Some(all),
                contents_in(all.take(i as int)) == Some(content.deep_view()),
            decreases items@.len() - i,
        {
            proof {
                assert(all.take(i + 1).drop_last() =~= all.take(i as int));
            }
            match ContentBlock::from_json(&items[i]) {
                Some(block) => {
                    push_to(&mut content, block);
                },
                None => {
                    proof {
                        unread_stays_unread(all, i + 1);
                    }
                    return None;
                },
            }
            i = i + 1;
        }
        assert(all.take(i as int) =~= all);
        Some(
            CallToolResult {
                content,
                structured_content: copied(json.filled_at("structuredContent")),
                is_error,
            },
        )
    }
}

/// What a block looks like in a text.
pub open spec fn block_text(block: ContentView) -> Seq<char> {
    match block {
        ContentView::Text { text } => text,
        ContentView::Image { data, mime_type } => "[image "@ + mime_type + ", "@ + decimal(
            encode_utf8(data).len(),
        ) + " bytes]"@,
        ContentView::Resource { uri, mime_type, text, blob } => {
            let head = "[resource "@ + uri + " "@ + match mime_type {
                Some(mime) => mime,
                None => Seq::empty(),
            };
            match (text, blob) {
                (Some(text), _) => head + "]\n"@ + text,
                (None, Some(blob)) => head + ", "@ + decimal(encode_utf8(blob).len())
                    + " bytes blob]"@,
                (None, None) => head + "]"@,
            }
        },
    }
}

/// The blocks as one text. A blank line goes before a block where something was said
/// before it.
pub open spec fn blocks_text(blocks: Seq<ContentView>) -> Seq<char>
    decreases blocks.len(),
{
    if blocks.len() == 0 {
        Seq::empty()
    } else {
        let before = blocks_text(blocks.drop_last());
        if before.len() == 0 {
            before + block_text(blocks.last())
        } else {
            before + "\n\n"@ + block_text(blocks.last())
        }
    }
}

fn render_content(block: &ContentBlock) -> (r: String)
    ensures
        r@ == block_text(block.deep_view()),
{
    match block {
        ContentBlock::Text { text } => text.clone(),
        ContentBlock::Image { data, mime_type } => {
            let mut out = labelled("[image ", mime_type.as_str());
            out.append(", ");
            out.append(decimal_of(data.as_str().as_bytes().len() as u128).as_str());
            out.append(" bytes]");
            out
        },
        ContentBlock::Resource { resource } => {
            let mut out = labelled("[resource ", resource.uri.as_str());
            out.append(" ");
            match &resource.mime_type {
                Some(mime) => {
                    out.append(mime.as_str());
                },
                None => {
                    assert(out@ + Seq::<char>::empty() =~= out@);
                },
            }
            match (&resource.text, &resource.blob) {
                (Some(text), _) => {
                    out.append("]\n");
                    out.append(text.as_str());
                },
                (None, Some(blob)) => {
                    out.append(", ");
                    out.append(decimal_of(blob.as_str().as_bytes().len() as u128).as_str());
                    out.append(" bytes blob]");
                },
                (None, None) => {
                    out.append("]");
                },
            }
            out
        },
    }
}

/// The blocks as one text.
pub fn content_blocks_to_text(blocks: &Vec<ContentBlock>) -> (r: String)
    ensures
        r@ == blocks_text(blocks.deep_view()),
{
    let mut out = String::new();
    let mut i: usize = 0;
    let ghost all = blocks.deep_view();
    while i < blocks.len()
        invariant
            i <= blocks@.len(),
            all == blocks.deep_view(),
            out@ == blocks_text(all.take(i as int)),
        decreases blocks@.len() - i,
    {
        assert(all.take(i + 1).drop_last() =~= all.take(i as int));
        if !out.as_str().is_empty() {
            out.append("\n\n");
        }
        out.append(render_content(&blocks[i]).as_str());
        i = i + 1;
    }
    assert(all.take(i as int) =~= all);
    out
}

} // verus!
