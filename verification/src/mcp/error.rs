//! What can go wrong with a server.
use vstd::prelude::*;

use crate::duration::{Duration, spelled};
use crate::json::{Json, JsonView};
use crate::text::{labelled, signed_decimal, signed_decimal_of};

verus! {

/// Errors of a server, its transport or its configuration.
#[derive(Debug)]
#[allow(inconsistent_fields)]
pub enum McpError {
    /// The transport failed.
    Io(String),
    /// Something was not the JSON it should have been.
    Json(String),
    /// The server answered with an error.
    JsonRpc { code: i64, message: String, data: Option<Json> },
    /// No answer came in time.
    Timeout(Duration),
    /// The server is gone.
    Disconnected(String),
    /// The session of an HTTP server has expired.
    StaleSession(String),
    /// The server could not be started.
    Spawn { server: String, source: String },
    /// The server answered with something unexpected.
    Protocol(String),
    /// One of several servers could not be connected.
    ConnectFailed { server: String, source: Box<McpError> },
}

/// The model of an error.
#[allow(inconsistent_fields)]
pub ghost enum McpErrorView {
    Io(Seq<char>),
    Json(Seq<char>),
    JsonRpc { code: i64, message: Seq<char>, data: Option<JsonView> },
    Timeout(nat),
    Disconnected(Seq<char>),
    StaleSession(Seq<char>),
    Spawn { server: Seq<char>, source: Seq<char> },
    Protocol(Seq<char>),
    ConnectFailed { server: Seq<char>, source: Box<McpErrorView> },
}

/// The model of an error.
pub open spec fn error_view(error: McpError) -> McpErrorView
    decreases error,
{
    match error {
        McpError::Io(m) => McpErrorView::Io(m@),
        McpError::Json(m) => McpErrorView::Json(m@),
        McpError::JsonRpc { code, message, data } => McpErrorView::JsonRpc {
            code,
            message: message@,
            data: data.deep_view(),
        },
        McpError::Timeout(span) => McpErrorView::Timeout(span@),
        McpError::Disconnected(server) => McpErrorView::Disconnected(server@),
        McpError::StaleSession(server) => McpErrorView::StaleSession(server@),
        McpError::Spawn { server, source } => McpErrorView::Spawn {
            server: server@,
            source: source@,
        },
        McpError::Protocol(m) => McpErrorView::Protocol(m@),
        McpError::ConnectFailed { server, source } => McpErrorView::ConnectFailed {
            server: server@,
            source: Box::new(error_view(*source)),
        },
    }
}

impl DeepView for McpError {
    type V = McpErrorView;

    open spec fn deep_view(&self) -> McpErrorView {
        error_view(*self)
    }
}

/// Whether another connection may mend an error: the server is gone, or its session is.
pub open spec fn recoverable(error: McpErrorView) -> bool {
    error is Disconnected || error is StaleSession
}

/// What an error says.
pub open spec fn error_text(error: McpErrorView) -> Seq<char>
    decreases error,
{
    match error {
        McpErrorView::Io(m) => "transport I/O error: "@ + m,
        McpErrorView::Json(m) => "json error: "@ + m,
        McpErrorView::JsonRpc { code, message, data } => "jsonrpc error "@ + signed_decimal(
            code as int,
        ) + ": "@ + message,
        McpErrorView::Timeout(span) => "request timed out after "@ + spelled(span),
        McpErrorView::Disconnected(server) => "server '"@ + server + "' is disconnected"@,
        McpErrorView::StaleSession(server) => "server '"@ + server + "' session expired"@,
        McpErrorView::Spawn { server, source } => "failed to spawn server '"@ + server + "': "@
            + source,
        McpErrorView::Protocol(m) => "protocol error: "@ + m,
        McpErrorView::ConnectFailed { server, source } => "failed to connect server '"@ + server
            + "': "@ + error_text(*source),
    }
}

impl McpError {
    /// An unexpected answer.
    pub fn protocol(message: &str) -> (r: McpError)
        ensures
            r.deep_view() == McpErrorView::Protocol(message@),
    {
        McpError::Protocol(message.to_owned())
    }

    /// Whether another connection may mend the error.
    pub fn is_recoverable(&self) -> (r: bool)
        ensures
            r == recoverable(self.deep_view()),
    {
        match self {
            McpError::Disconnected(_) => true,
            McpError::StaleSession(_) => true,
            _ => false,
        }
    }

    /// What the error says.
    pub fn message(&self) -> (r: String)
        ensures
            r@ == error_text(self.deep_view()),
        decreases self,
    {
        match self {
            McpError::Io(m) => labelled("transport I/O error: ", m.as_str()),
            McpError::Json(m) => labelled("json error: ", m.as_str()),
            McpError::JsonRpc { code, message, data: _ } => {
                let mut out = labelled("jsonrpc error ", signed_decimal_of(*code).as_str());
                out.append(": ");
                out.append(message.as_str());
                out
            },
            McpError::Timeout(span) => labelled(
                "request timed out after ",
                span.debug_text().as_str(),
            ),
            McpError::Disconnected(server) => {
                let mut out = labelled("server '", server.as_str());
                out.append("' is disconnected");
                out
            },
            McpError::StaleSession(server) => {
                let mut out = labelled("server '", server.as_str());
                out.append("' session expired");
                out
            },
            McpError::Spawn { server, source } => {
                let mut out = labelled("failed to spawn server '", server.as_str());
                out.append("': ");
                out.append(source.as_str());
                out
            },
            McpError::Protocol(m) => labelled("protocol error: ", m.as_str()),
            McpError::ConnectFailed { server, source } => {
                let mut out = labelled("failed to connect server '", server.as_str());
                out.append("': ");
                out.append(source.message().as_str());
                out
            },
        }
    }
}

} // verus!
