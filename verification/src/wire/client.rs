//! What a request to an endpoint is made of.

use vstd::prelude::*;
use crate::protocol::{Json, JsonView};
use crate::text;
use crate::text::{pairs, without_trailing};
use crate::wire::chat_completions;
use crate::wire::messages;
use crate::wire::{ModelRequest, ProviderError, ProviderErrorView, RequestView};

verus! {

/// A wire format.
#[derive(Clone, Copy, Debug, PartialEq, Eq, Structural)]
pub enum WireApi {
    ChatCompletions,
    Responses,
    Messages,
    /// The provider does its own HTTP.
    Custom,
}

/// One endpoint, whichever wire format it is asked for.
#[derive(Debug, PartialEq, Eq)]
pub struct WireClient {
    base_url: String,
    sampling_is_fixed: bool,
    extra_headers: Vec<(String, String)>,
}

/// What a [`WireClient`] knows.
pub struct ClientView {
    pub base_url: Seq<char>,
    pub sampling_is_fixed: bool,
    pub extra_headers: Seq<(Seq<char>, Seq<char>)>,
}

impl View for WireClient {
    type V = ClientView;

    closed spec fn view(&self) -> ClientView {
        ClientView {
            base_url: self.base_url@,
            sampling_is_fixed: self.sampling_is_fixed,
            extra_headers: pairs(self.extra_headers@),
        }
    }
}

/// A request that is ready but for its credential. It has a body where this library builds
/// one: not for the Responses format.
#[derive(Debug, PartialEq, Eq)]
pub struct Outgoing {
    pub url: String,
    pub headers: Vec<(String, String)>,
    pub body: Option<Json>,
}

/// The refusal of a custom wire format.
pub open spec fn custom_refusal() -> ProviderErrorView {
    ProviderErrorView::InvalidRequest(
        "this provider declares a custom wire format and cannot use the shared client"@,
    )
}

/// The endpoint's path for a format.
pub open spec fn path_of(api: WireApi) -> Seq<char> {
    match api {
        WireApi::ChatCompletions => "/chat/completions"@,
        WireApi::Responses => "/responses"@,
        WireApi::Messages => "/messages"@,
        WireApi::Custom => Seq::empty(),
    }
}

/// The headers that a format asks for itself.
pub open spec fn format_headers(api: WireApi) -> Seq<(Seq<char>, Seq<char>)> {
    let accept = seq![("accept"@, "text/event-stream"@)];
    if api is Messages {
        accept.push(("anthropic-version"@, messages::ANTHROPIC_VERSION@))
    } else {
        accept
    }
}

/// The body that a format asks for.
pub open spec fn body_for(api: WireApi, request: RequestView) -> Option<JsonView> {
    match api {
        WireApi::ChatCompletions => Some(
            JsonView::Object(chat_completions::body_of(request, true)),
        ),
        WireApi::Messages => Some(JsonView::Object(messages::body_of(request, true))),
        _ => None,
    }
}

/// `WireApi::Custom` marks a provider that does its own HTTP; routing it here would mean
/// guessing a schema, so it is refused rather than approximated.
pub fn custom_unsupported() -> (r: ProviderError)
    ensures
        r@ == custom_refusal(),
{
    ProviderError::InvalidRequest(
        text::copy("this provider declares a custom wire format and cannot use the shared client"),
    )
}

impl WireClient {
    /// `base_url` is the API root, e.g. `https://api.x.ai/v1`; the endpoint path for the chosen
    /// format is appended to it.
    pub fn new(base_url: &str) -> (r: WireClient)
        ensures
            r@ == (ClientView {
                base_url: without_trailing(base_url@, '/'),
                sampling_is_fixed: false,
                extra_headers: Seq::empty(),
            }),
    {
        let r = WireClient {
            base_url: text::trim_end_matches(base_url, '/'),
            sampling_is_fixed: false,
            extra_headers: Vec::new(),
        };
        assert(r@.extra_headers =~= Seq::empty());
        r
    }

    /// Marks this endpoint as one that fixes sampling itself.
    pub fn with_fixed_sampling(self) -> (r: WireClient)
        ensures
            r@ == (ClientView { sampling_is_fixed: true, ..self@ }),
    {
        WireClient {
            base_url: self.base_url,
            sampling_is_fixed: true,
            extra_headers: self.extra_headers,
        }
    }

    /// Attaches static headers sent with every request.
    pub fn with_extra_headers(self, headers: Vec<(String, String)>) -> (r: WireClient)
        ensures
            r@ == (ClientView { extra_headers: pairs(headers@), ..self@ }),
    {
        WireClient {
            base_url: self.base_url,
            sampling_is_fixed: self.sampling_is_fixed,
            extra_headers: headers,
        }
    }

    /// The API root, without the slashes at its end.
    pub fn base_url(&self) -> (r: &str)
        ensures
            r@ == self@.base_url,
    {
        self.base_url.as_str()
    }

    /// Whether this endpoint fixes sampling itself.
    pub fn sampling_is_fixed(&self) -> (r: bool)
        ensures
            r == self@.sampling_is_fixed,
    {
        self.sampling_is_fixed
    }

    /// The address of a path below the root.
    pub fn url(&self, path: &str) -> (r: String)
        ensures
            r@ == self@.base_url + path@,
    {
        text::concat(self.base_url.as_str(), path)
    }

    /// The headers of a request: those it has, then the static ones, then the credential's own,
    /// so that a request never loses its authorization to a misconfigured extra one.
    pub fn authorized(
        &self,
        headers: Vec<(String, String)>,
        credential: &Vec<(String, String)>,
    ) -> (r: Vec<(String, String)>)
        ensures
            pairs(r@) == pairs(headers@) + self@.extra_headers + pairs(
                credential@,
            ),
    {
        let mut headers = headers;
        text::append_pairs(&mut headers, &self.extra_headers);
        text::append_pairs(&mut headers, credential);
        headers
    }

    /// What a streamed request to this endpoint is made of.
    pub fn outgoing(&self, api: WireApi, request: &ModelRequest) -> (r: Result<
        Outgoing,
        ProviderError,
    >)
        ensures
            r is Err <==> api is Custom,
            r is Err ==> r->Err_0@ == custom_refusal(),
            r is Ok ==> r->Ok_0.url@ == self@.base_url + path_of(api),
            r is Ok ==> pairs(r->Ok_0.headers@) == format_headers(api),
            r is Ok ==> match body_for(api, request@) {
                Some(body) => r->Ok_0.body is Some && r->Ok_0.body->0@ == body,
                None => r->Ok_0.body is None,
            },
    {
        let (path, body) = match api {
            WireApi::ChatCompletions => (
                "/chat/completions",
                Some(chat_completions::chat_completions_body(request, true)),
            ),
            WireApi::Responses => ("/responses", None),
            WireApi::Messages => ("/messages", Some(messages::messages_body(request, true))),
            WireApi::Custom => {
                return Err(custom_unsupported());
            },
        };
        let mut headers = text::no_pairs();
        text::push_pair(&mut headers, "accept", "text/event-stream");
        if matches!(api, WireApi::Messages) {
            text::push_pair(&mut headers, "anthropic-version", messages::ANTHROPIC_VERSION);
        }
        assert(pairs(headers@) =~= format_headers(api));
        Ok(Outgoing { url: self.url(path), headers, body })
    }
}

} // verus!
