//! What the tools of the library share.
use vstd::prelude::*;

use crate::json::{Json, JsonView, printed};

verus! {

/// What a tool call comes to: whether it succeeded, and a value.
#[derive(Debug, PartialEq)]
pub struct ToolResult {
    pub success: bool,
    pub output: Json,
}

/// A value as the text that a model reads: a text as it is, anything else as compact JSON.
pub open spec fn output_text(output: JsonView) -> Seq<char> {
    match output {
        JsonView::Text(t) => t,
        other => printed(other),
    }
}

impl ToolResult {
    /// A call that succeeded with a value.
    pub fn ok(output: Json) -> (r: ToolResult)
        ensures
            r.success,
            r.output.deep_view() == output.deep_view(),
    {
        ToolResult { success: true, output }
    }

    /// A call that succeeded with a text.
    pub fn ok_text(text: String) -> (r: ToolResult)
        ensures
            r.success,
            r.output.deep_view() == JsonView::Text(text@),
    {
        ToolResult { success: true, output: Json::Text(text) }
    }

    /// A call that failed, and why.
    pub fn error(text: String) -> (r: ToolResult)
        ensures
            !r.success,
            r.output.deep_view() == JsonView::Text(text@),
    {
        ToolResult { success: false, output: Json::Text(text) }
    }

    /// Whether the call failed.
    pub fn is_error(&self) -> (r: bool)
        ensures
            r == !self.success,
    {
        !self.success
    }

    /// What the call came to, as text.
    pub fn text(&self) -> (r: String)
        ensures
            r@ == output_text(self.output.deep_view()),
    {
        match &self.output {
            Json::Text(t) => t.clone(),
            other => other.print(),
        }
    }

    /// The value of a call that succeeded.
    pub fn output(&self) -> (r: Option<&Json>)
        ensures
            r.deep_view() == if self.success {
                Some(self.output.deep_view())
            } else {
                None
            },
    {
        if self.success {
            Some(&self.output)
        } else {
            None
        }
    }
}

/// A tool as a model is told of it.
#[derive(Debug, PartialEq)]
pub struct ToolSpec {
    pub name: String,
    pub description: String,
    pub parameters: Json,
}

/// The model of a tool's description.
pub ghost struct SpecView {
    pub name: Seq<char>,
    pub description: Seq<char>,
    pub parameters: JsonView,
}

impl DeepView for ToolSpec {
    type V = SpecView;

    open spec fn deep_view(&self) -> SpecView {
        SpecView {
            name: self.name@,
            description: self.description@,
            parameters: self.parameters.deep_view(),
        }
    }
}

} // verus!
