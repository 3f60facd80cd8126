//! One server connection: what is said in what order, and when it is rebuilt.
use vstd::prelude::*;

use crate::duration::Duration;
use crate::json::{Json, JsonView};
use crate::mcp::error::{McpError, McpErrorView, recoverable};
use crate::mcp::protocol::{
    CallResultView, CallToolParams, CallToolResult, InitializeParams, InitializeResult,
    InitializeView, ListToolsResult, McpToolDef, ServerCapabilities, ServerInfo, ToolDefView,
    CapabilitiesView, call_json, call_result_in, initialize_in, introduction, list_tools_in,
};

verus! {

/// How often a connection is rebuilt before giving up.
pub const MAX_RECONNECT_ATTEMPTS: u32 = 2;

/// The pause between two attempts, in milliseconds.
pub const RECONNECT_BACKOFF_MILLIS: u64 = 500;

/// A handle on a connected server: whose it is, and whether its transport can be rebuilt.
#[derive(Debug)]
pub struct McpHandle {
    pub server_name: String,
    pub reconnects: bool,
}

impl Clone for McpHandle {
    fn clone(&self) -> (r: McpHandle)
        ensures
            r.server_name@ == self.server_name@,
            r.reconnects == self.reconnects,
    {
        McpHandle { server_name: self.server_name.clone(), reconnects: self.reconnects }
    }
}

impl McpHandle {
    /// A handle that keeps its transport.
    pub fn from_transport(server_name: &str) -> (r: McpHandle)
        ensures
            r.server_name@ == server_name@,
            !r.reconnects,
    {
        McpHandle { server_name: server_name.to_owned(), reconnects: false }
    }

    /// A handle whose transport is rebuilt when it fails.
    pub fn reconnectable(server_name: String) -> (r: McpHandle)
        ensures
            r.server_name@ == server_name@,
            r.reconnects,
    {
        McpHandle { server_name, reconnects: true }
    }

    /// The name of the server.
    pub fn server_name(&self) -> (r: &str)
        ensures
            r@ == self.server_name@,
    {
        self.server_name.as_str()
    }
}

/// Where a request stands.
#[derive(Debug, Clone, Copy, PartialEq, Eq, Structural)]
pub enum Exchange {
    /// The request is out.
    Asking { reconnects: bool },
    /// The transport failed; this many attempts to rebuild it have failed.
    Rebuilding { failed: u32 },
    /// The transport is new and the request is out again.
    AskingAgain,
    /// The caller has its answer.
    Done,
}

/// What may come back while a request stands.
#[derive(Debug)]
pub enum ExchangeEvent {
    /// The transport answered the request.
    Answered(Result<Json, McpError>),
    /// An attempt to rebuild the transport ended.
    Rebuilt(Result<(), McpError>),
    /// Another caller rebuilt the transport in the meantime.
    RebuiltElsewhere,
}

/// What is to be done next.
#[derive(Debug)]
pub enum ExchangeAction {
    /// Hand this to the caller.
    Return(Result<Json, McpError>),
    /// Rebuild the transport, after a pause where there is one.
    Rebuild { pause: Option<Duration> },
    /// Send the request once more.
    Send,
    /// Nothing: the event does not belong here.
    Ignore,
}

/// The model of what may come back.
pub ghost enum ExchangeEventView {
    Answered(Result<JsonView, McpErrorView>),
    Rebuilt(Result<(), McpErrorView>),
    RebuiltElsewhere,
}

/// The model of what is to be done next.
pub ghost enum ExchangeActionView {
    Return(Result<JsonView, McpErrorView>),
    Rebuild { pause: Option<nat> },
    Send,
    Ignore,
}

/// The model of an answer.
pub open spec fn answer_view(answer: Result<Json, McpError>) -> Result<JsonView, McpErrorView> {
    match answer {
        Ok(json) => Ok(json.deep_view()),
        Err(error) => Err(error.deep_view()),
    }
}

/// The model of an outcome without a value.
pub open spec fn unit_view(outcome: Result<(), McpError>) -> Result<(), McpErrorView> {
    match outcome {
        Ok(_) => Ok(()),
        Err(error) => Err(error.deep_view()),
    }
}

impl DeepView for ExchangeEvent {
    type V = ExchangeEventView;

    open spec fn deep_view(&self) -> ExchangeEventView {
        match *self {
            ExchangeEvent::Answered(answer) => ExchangeEventView::Answered(answer_view(answer)),
            ExchangeEvent::Rebuilt(outcome) => ExchangeEventView::Rebuilt(unit_view(outcome)),
            ExchangeEvent::RebuiltElsewhere => ExchangeEventView::RebuiltElsewhere,
        }
    }
}

impl DeepView for ExchangeAction {
    type V = ExchangeActionView;

    open spec fn deep_view(&self) -> ExchangeActionView {
        match *self {
            ExchangeAction::Return(answer) => ExchangeActionView::Return(answer_view(answer)),
            ExchangeAction::Rebuild { pause } => ExchangeActionView::Rebuild {
                pause: match pause {
                    Some(span) => Some(span@),
                    None => None,
                },
            },
            ExchangeAction::Send => ExchangeActionView::Send,
            ExchangeAction::Ignore => ExchangeActionView::Ignore,
        }
    }
}

/// The pause between two attempts, in nanoseconds.
pub open spec fn backoff() -> nat {
    (RECONNECT_BACKOFF_MILLIS * 1_000_000) as nat
}

/// What follows when an event meets a request. An error that another connection may mend
/// has the transport rebuilt, where that can be done, and the request sent once more;
/// what then comes back is final.
pub open spec fn exchange_step(state: Exchange, event: ExchangeEventView) -> (
    Exchange,
    ExchangeActionView,
) {
    match (state, event) {
        (Exchange::Asking { reconnects }, ExchangeEventView::Answered(answer)) => match answer {
            Err(error) if recoverable(error) && reconnects => (
                Exchange::Rebuilding { failed: 0 },
                ExchangeActionView::Rebuild { pause: None },
            ),
            _ => (Exchange::Done, ExchangeActionView::Return(answer)),
        },
        (Exchange::Rebuilding { failed }, ExchangeEventView::Rebuilt(Ok(_))) => (
            Exchange::AskingAgain,
            ExchangeActionView::Send,
        ),
        (Exchange::Rebuilding { failed }, ExchangeEventView::Rebuilt(Err(error))) => if failed + 1
            < MAX_RECONNECT_ATTEMPTS {
            (
                Exchange::Rebuilding { failed: (failed + 1) as u32 },
                ExchangeActionView::Rebuild { pause: Some(backoff()) },
            )
        } else {
            (Exchange::Done, ExchangeActionView::Return(Err(error)))
        },
        (Exchange::Rebuilding { failed }, ExchangeEventView::RebuiltElsewhere) => (
            Exchange::AskingAgain,
            ExchangeActionView::Send,
        ),
        (Exchange::AskingAgain, ExchangeEventView::Answered(answer)) => (
            Exchange::Done,
            ExchangeActionView::Return(answer),
        ),
        _ => (state, ExchangeActionView::Ignore),
    }
}

impl Exchange {
    /// A request that has just been sent through a handle.
    pub fn begin(handle: &McpHandle) -> (r: Exchange)
        ensures
            r == (Exchange::Asking { reconnects: handle.reconnects }),
    {
        Exchange::Asking { reconnects: handle.reconnects }
    }

    /// Takes an event in, and says what is to be done next.
    pub fn step(&mut self, event: ExchangeEvent) -> (r: ExchangeAction)
        ensures
            (*final(self), r.deep_view()) == exchange_step(*old(self), event.deep_view()),
    {
        let state = *self;
        match (state, event) {
            (Exchange::Asking { reconnects }, ExchangeEvent::Answered(answer)) => {
                let rebuild = match &answer {
                    Err(error) => error.is_recoverable() && reconnects,
                    Ok(_) => false,
                };
                if rebuild {
                    *self = Exchange::Rebuilding { failed: 0 };
                    ExchangeAction::Rebuild { pause: None }
                } else {
                    *self = Exchange::Done;
                    ExchangeAction::Return(answer)
                }
            },
            (Exchange::Rebuilding { failed }, ExchangeEvent::Rebuilt(outcome)) => match outcome {
                Ok(_) => {
                    *self = Exchange::AskingAgain;
                    ExchangeAction::Send
                },
                Err(error) => {
                    if failed < MAX_RECONNECT_ATTEMPTS - 1 {
                        *self = Exchange::Rebuilding { failed: failed + 1 };
                        ExchangeAction::Rebuild {
                            pause: Some(Duration::from_millis(RECONNECT_BACKOFF_MILLIS)),
                        }
                    } else {
                        *self = Exchange::Done;
                        ExchangeAction::Return(Err(error))
                    }
                },
            },
            (Exchange::Rebuilding { failed: _ }, ExchangeEvent::RebuiltElsewhere) => {
                *self = Exchange::AskingAgain;
                ExchangeAction::Send
            },
            (Exchange::AskingAgain, ExchangeEvent::Answered(answer)) => {
                *self = Exchange::Done;
                ExchangeAction::Return(answer)
            },
            _ => ExchangeAction::Ignore,
        }
    }
}

/// Where a request stands after several events, and what was to be done after each.
pub open spec fn exchange_run(state: Exchange, events: Seq<ExchangeEventView>) -> (
    Exchange,
    Seq<ExchangeActionView>,
)
    decreases events.len(),
{
    if events.len() == 0 {
        (state, Seq::empty())
    } else {
        let (before, actions) = exchange_run(state, events.drop_last());
        let (after, action) = exchange_step(before, events.last());
        (after, actions.push(action))
    }
}

/// How many of the actions send the request again.
pub open spec fn sends(actions: Seq<ExchangeActionView>) -> nat
    decreases actions.len(),
{
    if actions.len() == 0 {
        0
    } else {
        sends(actions.drop_last()) + if actions.last() is Send {
            1nat
        } else {
            0nat
        }
    }
}

/// How many of the actions rebuild the transport.
pub open spec fn rebuilds(actions: Seq<ExchangeActionView>) -> nat
    decreases actions.len(),
{
    if actions.len() == 0 {
        0
    } else {
        rebuilds(actions.drop_last()) + if actions.last() is Rebuild {
            1nat
        } else {
            0nat
        }
    }
}

/// How many of the actions answer the caller.
pub open spec fn returns_made(actions: Seq<ExchangeActionView>) -> nat
    decreases actions.len(),
{
    if actions.len() == 0 {
        0
    } else {
        returns_made(actions.drop_last()) + if actions.last() is Return {
            1nat
        } else {
            0nat
        }
    }
}

/// Whatever comes back, a request is sent again at most once, its transport is rebuilt at
/// most as often as allowed, and the caller is answered at most once. Without a recipe
/// neither happens.
pub proof fn exchanges_are_bounded(reconnects: bool, events: Seq<ExchangeEventView>)
    ensures
        ({
            let (state, actions) = exchange_run(Exchange::Asking { reconnects }, events);
            &&& sends(actions) <= 1
            &&& rebuilds(actions) <= MAX_RECONNECT_ATTEMPTS
            &&& returns_made(actions) <= 1
            &&& returns_made(actions) == 1 <==> state is Done
            &&& !reconnects ==> sends(actions) == 0 && rebuilds(actions) == 0
        }),
    decreases events.len(),
{
    exchange_progress(reconnects, events);
}

proof fn exchange_progress(reconnects: bool, events: Seq<ExchangeEventView>)
    ensures
        ({
            let (state, actions) = exchange_run(Exchange::Asking { reconnects }, events);
            &&& sends(actions) <= 1
            &&& rebuilds(actions) <= MAX_RECONNECT_ATTEMPTS
            &&& returns_made(actions) == if state is Done {
                1nat
            } else {
                0
            }
            &&& state matches Exchange::Asking { reconnects: again } ==> again == reconnects && sends(
                actions,
            ) == 0 && rebuilds(actions) == 0
            &&& state matches Exchange::Rebuilding { failed } ==> reconnects && failed
                < MAX_RECONNECT_ATTEMPTS && sends(actions) == 0 && rebuilds(actions) == failed + 1
            &&& state is AskingAgain ==> reconnects
            &&& !reconnects ==> sends(actions) == 0 && rebuilds(actions) == 0
        }),
    decreases events.len(),
{
    if events.len() > 0 {
        exchange_progress(reconnects, events.drop_last());
        let (before, actions) = exchange_run(
            Exchange::Asking { reconnects },
            events.drop_last(),
        );
        let (after, action) = exchange_step(before, events.last());
        assert(actions.push(action).drop_last() =~= actions);
        reveal_with_fuel(sends, 2);
        reveal_with_fuel(rebuilds, 2);
        reveal_with_fuel(returns_made, 2);
    }
}

/// An error that another connection cannot mend is the caller's at once.
pub proof fn hopeless_errors_are_returned(reconnects: bool, error: McpErrorView)
    requires
        !recoverable(error),
    ensures
        exchange_step(Exchange::Asking { reconnects }, ExchangeEventView::Answered(Err(error)))
            == (Exchange::Done, ExchangeActionView::Return(Err(error))),
{
}

/// How often a connection was rebuilt, so that callers who failed together rebuild it once.
#[derive(Debug, Clone, Copy, PartialEq, Eq, Structural)]
pub struct Generation {
    pub count: u64,
}

impl Generation {
    /// A connection that was never rebuilt.
    pub fn first() -> (r: Generation)
        ensures
            r.count == 0,
    {
        Generation { count: 0 }
    }

    /// Whether a caller who saw `seen` before it failed has to rebuild the connection.
    pub fn is_current(&self, seen: u64) -> (r: bool)
        ensures
            r == (self.count == seen),
    {
        self.count == seen
    }

    /// The connection was rebuilt.
    pub fn advance(&mut self)
        ensures
            final(self).count == if old(self).count == u64::MAX {
                0
            } else {
                (old(self).count + 1) as u64
            },
    {
        self.count = self.count.wrapping_add(1);
    }
}

/// After a caller has rebuilt the connection, no other who failed with it has to.
pub proof fn one_rebuild_serves_all(before: Generation, after: Generation)
    requires
        after.count == if before.count == u64::MAX {
            0
        } else {
            (before.count + 1) as u64
        },
    ensures
        after.count != before.count,
{
}

/// What is said of an answer that has another shape than it should.
pub const UNEXPECTED_ANSWER: &'static str = "answer does not have the expected shape";

/// The tools in an answer to `tools/list`.
pub open spec fn listed_tools(answer: Result<JsonView, McpErrorView>) -> Result<
    Seq<ToolDefView>,
    McpErrorView,
> {
    match answer {
        Err(error) => Err(error),
        Ok(json) => match list_tools_in(json) {
            Some(list) => Ok(list.tools),
            None => Err(McpErrorView::Json(UNEXPECTED_ANSWER@)),
        },
    }
}

/// The tools in an answer to `tools/list`.
pub fn tools_of(answer: Result<Json, McpError>) -> (r: Result<Vec<McpToolDef>, McpError>)
    ensures
        match r {
            Ok(tools) => listed_tools(answer_view(answer)) == Ok::<Seq<ToolDefView>, McpErrorView>(
                tools.deep_view(),
            ),
            Err(error) => listed_tools(answer_view(answer)) == Err::<
                Seq<ToolDefView>,
                McpErrorView,
            >(error.deep_view()),
        },
{
    match answer {
        Err(error) => Err(error),
        Ok(json) => match ListToolsResult::from_json(&json) {
            Some(list) => Ok(list.tools),
            None => Err(McpError::Json(UNEXPECTED_ANSWER.to_owned())),
        },
    }
}

/// The outcome in an answer to `tools/call`.
pub open spec fn called(answer: Result<JsonView, McpErrorView>) -> Result<
    CallResultView,
    McpErrorView,
> {
    match answer {
        Err(error) => Err(error),
        Ok(json) => match call_result_in(json) {
            Some(result) => Ok(result),
            None => Err(McpErrorView::Json(UNEXPECTED_ANSWER@)),
        },
    }
}

/// The outcome in an answer to `tools/call`.
pub fn call_of(answer: Result<Json, McpError>) -> (r: Result<CallToolResult, McpError>)
    ensures
        match r {
            Ok(result) => called(answer_view(answer)) == Ok::<CallResultView, McpErrorView>(
                result.deep_view(),
            ),
            Err(error) => called(answer_view(answer)) == Err::<CallResultView, McpErrorView>(
                error.deep_view(),
            ),
        },
{
    match answer {
        Err(error) => Err(error),
        Ok(json) => match CallToolResult::from_json(&json) {
            Some(result) => Ok(result),
            None => Err(McpError::Json(UNEXPECTED_ANSWER.to_owned())),
        },
    }
}

/// What to send for a call of a tool.
pub fn call_params(name: &str, arguments: Json) -> (r: Json)
    ensures
        r.deep_view() == call_json(name@, Some(arguments.deep_view())),
{
    CallToolParams { name: name.to_owned(), arguments: Some(arguments) }.to_json()
}

/// A connected server: who it is, what it can do and which tools it has.
#[derive(Debug)]
pub struct McpClient {
    pub handle: McpHandle,
    pub server_info: ServerInfo,
    pub capabilities: ServerCapabilities,
    pub tools: Vec<McpToolDef>,
}

/// The model of a connected server.
pub ghost struct ClientView {
    pub server_name: Seq<char>,
    pub reconnects: bool,
    pub info: (Seq<char>, Seq<char>),
    pub capabilities: CapabilitiesView,
    pub tools: Seq<ToolDefView>,
}

impl DeepView for McpClient {
    type V = ClientView;

    open spec fn deep_view(&self) -> ClientView {
        ClientView {
            server_name: self.handle.server_name@,
            reconnects: self.handle.reconnects,
            info: (self.server_info.name@, self.server_info.version@),
            capabilities: self.capabilities.deep_view(),
            tools: self.tools.deep_view(),
        }
    }
}

impl McpClient {
    /// The handle on the server.
    pub fn handle(&self) -> (r: &McpHandle)
        ensures
            *r == self.handle,
    {
        &self.handle
    }

    /// The name of the server.
    pub fn server_name(&self) -> (r: &str)
        ensures
            r@ == self.deep_view().server_name,
    {
        self.handle.server_name()
    }

    /// Who the server says it is.
    pub fn server_info(&self) -> (r: &ServerInfo)
        ensures
            *r == self.server_info,
    {
        &self.server_info
    }

    /// What the server can do.
    pub fn capabilities(&self) -> (r: &ServerCapabilities)
        ensures
            *r == self.capabilities,
    {
        &self.capabilities
    }

    /// The tools that the server has.
    pub fn tools(&self) -> (r: &Vec<McpToolDef>)
        ensures
            r.deep_view() == self.deep_view().tools,
    {
        &self.tools
    }
}

/// Where an introduction stands.
#[derive(Debug)]
pub enum Handshake {
    /// `initialize` is out.
    Introducing,
    /// The server has answered, and is being told so.
    Confirming { init: InitializeResult },
    /// `tools/list` is out.
    Listing { init: InitializeResult },
    /// The introduction is over.
    Over,
}

/// The model of where an introduction stands.
pub ghost enum HandshakeView {
    Introducing,
    Confirming { init: InitializeView },
    Listing { init: InitializeView },
    Over,
}

impl DeepView for Handshake {
    type V = HandshakeView;

    open spec fn deep_view(&self) -> HandshakeView {
        match *self {
            Handshake::Introducing => HandshakeView::Introducing,
            Handshake::Confirming { init } => HandshakeView::Confirming {
                init: init.deep_view(),
            },
            Handshake::Listing { init } => HandshakeView::Listing { init: init.deep_view() },
            Handshake::Over => HandshakeView::Over,
        }
    }
}

/// What may come back during an introduction.
#[derive(Debug)]
pub enum HandshakeEvent {
    /// The request was answered.
    Answered(Result<Json, McpError>),
    /// The notification was sent, or not.
    Notified(Result<(), McpError>),
}

/// The model of what may come back during an introduction.
pub ghost enum HandshakeEventView {
    Answered(Result<JsonView, McpErrorView>),
    Notified(Result<(), McpErrorView>),
}

impl DeepView for HandshakeEvent {
    type V = HandshakeEventView;

    open spec fn deep_view(&self) -> HandshakeEventView {
        match *self {
            HandshakeEvent::Answered(answer) => HandshakeEventView::Answered(answer_view(answer)),
            HandshakeEvent::Notified(outcome) => HandshakeEventView::Notified(unit_view(outcome)),
        }
    }
}

/// What an introduction does next.
#[derive(Debug)]
pub enum HandshakeAction {
    /// Send a request.
    Request { method: &'static str, params: Option<Json> },
    /// Send a notification.
    Notify { method: &'static str },
    /// The server is connected.
    Connected { init: InitializeResult, tools: Vec<McpToolDef> },
    /// The server could not be connected.
    Failed(McpError),
    /// Nothing: the event does not belong here.
    Ignore,
}

/// The model of what an introduction does next.
pub ghost enum HandshakeActionView {
    Request { method: Seq<char>, params: Option<JsonView> },
    Notify { method: Seq<char> },
    Connected { init: InitializeView, tools: Seq<ToolDefView> },
    Failed(McpErrorView),
    Ignore,
}

impl DeepView for HandshakeAction {
    type V = HandshakeActionView;

    open spec fn deep_view(&self) -> HandshakeActionView {
        match *self {
            HandshakeAction::Request { method, params } => HandshakeActionView::Request {
                method: method@,
                params: params.deep_view(),
            },
            HandshakeAction::Notify { method } => HandshakeActionView::Notify { method: method@ },
            HandshakeAction::Connected { init, tools } => HandshakeActionView::Connected {
                init: init.deep_view(),
                tools: tools.deep_view(),
            },
            HandshakeAction::Failed(error) => HandshakeActionView::Failed(error.deep_view()),
            HandshakeAction::Ignore => HandshakeActionView::Ignore,
        }
    }
}

pub const INITIALIZE: &'static str = "initialize";

pub const INITIALIZED: &'static str = "notifications/initialized";

pub const TOOLS_LIST: &'static str = "tools/list";

pub const TOOLS_CALL: &'static str = "tools/call";

/// What follows when an event meets an introduction: `initialize`, then the notification
/// that it was understood, then `tools/list` where the server has tools. A list that does
/// not come leaves the server without tools.
pub open spec fn handshake_step(state: HandshakeView, event: HandshakeEventView) -> (
    HandshakeView,
    HandshakeActionView,
) {
    match (state, event) {
        (HandshakeView::Introducing, HandshakeEventView::Answered(answer)) => match answer {
            Err(error) => (HandshakeView::Over, HandshakeActionView::Failed(error)),
            Ok(json) => match initialize_in(json) {
                None => (
                    HandshakeView::Over,
                    HandshakeActionView::Failed(McpErrorView::Json(UNEXPECTED_ANSWER@)),
                ),
                Some(init) => (
                    HandshakeView::Confirming { init },
                    HandshakeActionView::Notify { method: INITIALIZED@ },
                ),
            },
        },
        (HandshakeView::Confirming { init }, HandshakeEventView::Notified(outcome)) => match outcome {
            Err(error) => (HandshakeView::Over, HandshakeActionView::Failed(error)),
            Ok(_) => if init.capabilities.tools is Some {
                (
                    HandshakeView::Listing { init },
                    HandshakeActionView::Request { method: TOOLS_LIST@, params: None },
                )
            } else {
                (
                    HandshakeView::Over,
                    HandshakeActionView::Connected { init, tools: Seq::empty() },
                )
            },
        },
        (HandshakeView::Listing { init }, HandshakeEventView::Answered(answer)) => (
            HandshakeView::Over,
            HandshakeActionView::Connected {
                init,
                tools: match listed_tools(answer) {
                    Ok(tools) => tools,
                    Err(_) => Seq::empty(),
                },
            },
        ),
        _ => (state, HandshakeActionView::Ignore),
    }
}

impl Handshake {
    /// Begins an introduction: the request to send first.
    pub fn begin() -> (r: (Handshake, HandshakeAction))
        ensures
            r.0.deep_view() == HandshakeView::Introducing,
            r.1.deep_view() == (HandshakeActionView::Request {
                method: INITIALIZE@,
                params: Some(introduction()),
            }),
    {
        let params = InitializeParams::of_this_client().to_json();
        (
            Handshake::Introducing,
            HandshakeAction::Request { method: INITIALIZE, params: Some(params) },
        )
    }

    /// Takes an event in, and says what is to be done next.
    pub fn step(self, event: HandshakeEvent) -> (r: (Handshake, HandshakeAction))
        ensures
            (r.0.deep_view(), r.1.deep_view()) == handshake_step(
                self.deep_view(),
                event.deep_view(),
            ),
    {
        match (self, event) {
            (Handshake::Introducing, HandshakeEvent::Answered(answer)) => match answer {
                Err(error) => (Handshake::Over, HandshakeAction::Failed(error)),
                Ok(json) => match InitializeResult::from_json(&json) {
                    None => (
                        Handshake::Over,
                        HandshakeAction::Failed(McpError::Json(UNEXPECTED_ANSWER.to_owned())),
                    ),
                    Some(init) => (
                        Handshake::Confirming { init },
                        HandshakeAction::Notify { method: INITIALIZED },
                    ),
                },
            },
            (Handshake::Confirming { init }, HandshakeEvent::Notified(outcome)) => match outcome {
                Err(error) => (Handshake::Over, HandshakeAction::Failed(error)),
                Ok(_) => {
                    if init.capabilities.tools.is_some() {
                        (
                            Handshake::Listing { init },
                            HandshakeAction::Request { method: TOOLS_LIST, params: None },
                        )
                    } else {
                        let tools: Vec<McpToolDef> = Vec::new();
                        assert(tools.deep_view() =~= Seq::empty());
                        (Handshake::Over, HandshakeAction::Connected { init, tools })
                    }
                },
            },
            (Handshake::Listing { init }, HandshakeEvent::Answered(answer)) => {
                let tools = match tools_of(answer) {
                    Ok(tools) => tools,
                    Err(_) => {
                        let none: Vec<McpToolDef> = Vec::new();
                        assert(none.deep_view() =~= Seq::empty());
                        none
                    },
                };
                (Handshake::Over, HandshakeAction::Connected { init, tools })
            },
            (state, _) => (state, HandshakeAction::Ignore),
        }
    }
}

/// Where an introduction stands after several events, and what was to be done after
/// those that belonged there.
pub open spec fn handshake_run(events: Seq<HandshakeEventView>) -> (
    HandshakeView,
    Seq<HandshakeActionView>,
)
    decreases events.len(),
{
    if events.len() == 0 {
        (HandshakeView::Introducing, Seq::empty())
    } else {
        let (before, actions) = handshake_run(events.drop_last());
        let (after, action) = handshake_step(before, events.last());
        (
            after,
            if action is Ignore {
                actions
            } else {
                actions.push(action)
            },
        )
    }
}

/// Whether an action ends an introduction.
pub open spec fn ends_handshake(action: HandshakeActionView) -> bool {
    action is Connected || action is Failed
}

/// Whatever comes back, an introduction does its steps in order: the notification comes
/// first, the list of tools is asked for behind it and only of a server that has tools,
/// and nothing follows its end. A server is connected only after the notification.
pub proof fn introductions_keep_their_order(events: Seq<HandshakeEventView>)
    ensures
        ({
            let (state, actions) = handshake_run(events);
            &&& actions.len() <= 3
            &&& forall|i: int|
                0 <= i < actions.len() ==> (ends_handshake(#[trigger] actions[i]) ==> i
                    == actions.len() - 1 && state is Over)
            &&& state is Over <==> actions.len() > 0 && ends_handshake(actions.last())
            &&& actions.len() > 0 && actions[0] != (HandshakeActionView::Notify {
                method: INITIALIZED@,
            }) ==> actions[0] is Failed
            &&& actions.len() > 1 && !ends_handshake(actions[1]) ==> actions[1] == (
            HandshakeActionView::Request { method: TOOLS_LIST@, params: None })
            &&& actions.len() == 3 ==> actions[2] is Connected
            &&& actions.len() > 0 && actions.last() is Connected ==> (actions.len() == 3
                <==> actions.last()->Connected_init.capabilities.tools is Some)
        }),
    decreases events.len(),
{
    introduction_progress(events);
}

proof fn introduction_progress(events: Seq<HandshakeEventView>)
    ensures
        ({
            let (state, actions) = handshake_run(events);
            match state {
                HandshakeView::Introducing => actions.len() == 0,
                HandshakeView::Confirming { init } => actions.len() == 1 && actions[0] == (
                HandshakeActionView::Notify { method: INITIALIZED@ }),
                HandshakeView::Listing { init } => {
                    &&& actions.len() == 2
                    &&& actions[0] == (HandshakeActionView::Notify { method: INITIALIZED@ })
                    &&& actions[1] == (HandshakeActionView::Request {
                        method: TOOLS_LIST@,
                        params: None,
                    })
                    &&& init.capabilities.tools is Some
                },
                HandshakeView::Over => {
                    &&& 1 <= actions.len() <= 3
                    &&& ends_handshake(actions.last())
                    &&& actions.len() == 1 ==> actions[0] is Failed
                    &&& actions.len() > 1 ==> actions[0] == (HandshakeActionView::Notify {
                        method: INITIALIZED@,
                    })
                    &&& actions.len() == 2 && actions[1] is Connected
                        ==> actions[1]->Connected_init.capabilities.tools is None
                    &&& actions.len() == 3 ==> actions[1] == (HandshakeActionView::Request {
                        method: TOOLS_LIST@,
                        params: None,
                    }) && actions[2] is Connected
                        && actions[2]->Connected_init.capabilities.tools is Some
                },
            }
        }),
    decreases events.len(),
{
    if events.len() > 0 {
        introduction_progress(events.drop_last());
    }
}

} // verus!
