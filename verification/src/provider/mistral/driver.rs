//! What a Mistral driver knows besides its key and its connection.
use vstd::prelude::*;

use crate::provider::mistral::request::{build_request, request_body};
use crate::provider::mistral::wire::{media_verdict, validate_media};
use crate::provider::types::{CompletionRequest, ProviderError, ProviderErrorView};
use crate::provider_core::{HttpRequest, HttpRequestView, add_header};
use crate::text::{labelled, trim_end_char, trimmed_end_char};

verus! {

/// The endpoint that a driver talks to unless told otherwise.
pub const DEFAULT_BASE_URL: &'static str = "https://api.mistral.ai/v1";

/// How the driver names itself.
pub const USER_AGENT: &'static str = "runic/0.1.0";

/// A driver for the Mistral API. The key stays with whoever holds the connection.
#[derive(Debug)]
pub struct MistralDriver {
    pub base_url: String,
    pub reasoning_effort: Option<String>,
}

impl MistralDriver {
    /// A driver for the default endpoint.
    pub fn new() -> (r: MistralDriver)
        ensures
            r.base_url@ == DEFAULT_BASE_URL@,
            r.reasoning_effort is None,
    {
        MistralDriver::with_base_url(DEFAULT_BASE_URL.to_owned())
    }

    /// A driver for another endpoint.
    pub fn with_base_url(base_url: String) -> (r: MistralDriver)
        ensures
            r.base_url@ == base_url@,
            r.reasoning_effort is None,
    {
        MistralDriver { base_url, reasoning_effort: None }
    }

    /// The driver, asking for the given reasoning effort.
    pub fn with_reasoning_effort(self, effort: String) -> (r: MistralDriver)
        ensures
            r.base_url@ == self.base_url@,
            r.reasoning_effort.deep_view() == Some(effort@),
    {
        MistralDriver { base_url: self.base_url, reasoning_effort: Some(effort) }
    }

    /// The URL of the chat endpoint.
    pub fn chat_url(&self) -> (r: String)
        ensures
            r@ == trim_end_char(self.base_url@, '/') + "/chat/completions"@,
    {
        let mut out = trimmed_end_char(self.base_url.as_str(), '/');
        out.append("/chat/completions");
        out
    }

    /// The request for a completion, streamed or not, where its media can be sent.
    pub fn request(&self, api_key: &str, request: &CompletionRequest, stream: bool) -> (r: Result<
        HttpRequest,
        ProviderError,
    >)
        ensures
            match r {
                Ok(sent) => {
                    &&& media_verdict(request.messages@) == Ok::<(), ProviderErrorView>(())
                    &&& sent.deep_view() == (HttpRequestView {
                        url: trim_end_char(self.base_url@, '/') + "/chat/completions"@,
                        headers: driver_headers(api_key@, stream),
                        body: request_body(*request, stream, self.reasoning_effort.deep_view()),
                    })
                },
                Err(error) => media_verdict(request.messages@) == Err::<(), ProviderErrorView>(
                    error.deep_view(),
                ),
            },
    {
        match validate_media(request) {
            Ok(_) => {},
            Err(error) => {
                return Err(error);
            },
        }
        let effort = match &self.reasoning_effort {
            Some(effort) => Some(effort.as_str()),
            None => None,
        };
        let body = build_request(request, stream, effort);
        let mut headers: Vec<(String, String)> = Vec::new();
        assert(headers.deep_view() =~= Seq::empty());
        add_header(&mut headers, "content-type", "application/json");
        if stream {
            add_header(&mut headers, "accept", "text/event-stream");
        }
        add_header(&mut headers, "authorization", bearer(api_key).as_str());
        Ok(HttpRequest { url: self.chat_url(), headers, body })
    }

    /// The name of the provider.
    pub fn name(&self) -> (r: &'static str)
        ensures
            r@ == "mistral"@,
    {
        "mistral"
    }
}

/// The headers of a request, streamed or not.
pub open spec fn driver_headers(api_key: Seq<char>, stream: bool) -> Seq<(Seq<char>, Seq<char>)> {
    let head = Seq::empty().push(("content-type"@, "application/json"@));
    let accepting = if stream {
        head.push(("accept"@, "text/event-stream"@))
    } else {
        head
    };
    accepting.push(("authorization"@, "Bearer "@ + api_key))
}

/// The value of the authorization header.
pub fn bearer(api_key: &str) -> (r: String)
    ensures
        r@ == "Bearer "@ + api_key@,
{
    labelled("Bearer ", api_key)
}

} // verus!
