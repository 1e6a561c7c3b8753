//! Signing in to a remote server, one step at a time.
//!
//! A browser never opens by itself: signing in is something a person asks for. The whole flow is
//! here (discover, register if needed, open a browser, redeem the code, keep what comes back) as
//! a machine that says what to do next and is told what came of it.

use vstd::prelude::*;
use crate::mcp::auth;
use crate::mcp::auth::{
    conventional, described, issued, metadata_hint, registration_view, well_known_at, AuthError,
    AuthErrorView, AuthTokens, MetadataView, Protected, ProtectedView, Registration,
    RegistrationView, Reply, ReplyView, ServerMetadata, TokensView,
};
use crate::oauth;
use crate::oauth::{Pkce, PkceView};
use crate::protocol::{member_views, no_items, no_members, push_json, push_member, Json, JsonView};
use crate::support::{char_size, size_of_char};
use crate::text;
use crate::text::{joined, opt, pairs, texts};

verus! {

/// The redirect path that the loopback listens on. Any path works: the registration is made
/// naming this one, moments before it is used.
pub const CALLBACK_PATH: &'static str = "/callback";

/// How far a login has come: what it waits for.
#[derive(Clone, Copy, Debug, PartialEq, Eq, Structural)]
pub enum Phase {
    /// The server's answer to an unauthenticated request.
    Challenging,
    /// The document that says which authorization server guards the resource.
    FindingResource,
    /// The document that says where that authorization server listens.
    FindingIssuer,
    /// A loopback address for the browser to come back to.
    Binding,
    /// The registration kept from an earlier login.
    Recalling,
    /// The answer to a new registration.
    Registering,
    /// The code that the browser brings back.
    Authorizing,
    /// The tokens that the code is good for.
    Redeeming,
    /// The tokens to be stored.
    Saving,
    /// The registration to be stored.
    Remembering,
    /// Nothing.
    Finished,
}

/// What came of the last action.
#[derive(Debug, PartialEq, Eq)]
pub enum Event {
    /// The server answered the challenge, with this status and this `WWW-Authenticate` header.
    Challenged { status: u16, header: Option<String> },
    /// The server did not answer the challenge.
    Unchallenged,
    /// What a location holds about the resource.
    Resource(Option<Protected>),
    /// What a location holds about the authorization server.
    Metadata(Option<ServerMetadata>),
    /// The loopback listens at this address.
    Bound(String),
    /// The loopback found no port.
    NoPort(String),
    /// The registration kept from an earlier login.
    Recalled(Option<Registration>),
    /// An endpoint was not reached.
    Unreachable(String),
    /// An endpoint's answer was not understood.
    Unusable(String),
    /// An endpoint answered.
    Replied(Reply),
    /// The browser brought a code back.
    Code(String),
    /// What was to be stored is stored.
    Stored,
    /// The last action failed.
    Failed(AuthError),
}

/// What an [`Event`] says.
pub enum EventView {
    Challenged { status: u16, header: Option<Seq<char>> },
    Unchallenged,
    Resource(Option<ProtectedView>),
    Metadata(Option<MetadataView>),
    Bound(Seq<char>),
    NoPort(Seq<char>),
    Recalled(Option<RegistrationView>),
    Unreachable(Seq<char>),
    Unusable(Seq<char>),
    Replied(ReplyView),
    Code(Seq<char>),
    Stored,
    Failed(AuthErrorView),
}

impl View for Event {
    type V = EventView;

    open spec fn view(&self) -> EventView {
        match self {
            Event::Challenged { status, header } => EventView::Challenged {
                status: *status,
                header: opt(*header),
            },
            Event::Unchallenged => EventView::Unchallenged,
            Event::Resource(found) => EventView::Resource(
                match found {
                    Some(found) => Some(found@),
                    None => None,
                },
            ),
            Event::Metadata(found) => EventView::Metadata(
                match found {
                    Some(found) => Some(found@),
                    None => None,
                },
            ),
            Event::Bound(uri) => EventView::Bound(uri@),
            Event::NoPort(error) => EventView::NoPort(error@),
            Event::Recalled(kept) => EventView::Recalled(registration_view(*kept)),
            Event::Unreachable(error) => EventView::Unreachable(error@),
            Event::Unusable(error) => EventView::Unusable(error@),
            Event::Replied(reply) => EventView::Replied(reply@),
            Event::Code(code) => EventView::Code(code@),
            Event::Stored => EventView::Stored,
            Event::Failed(error) => EventView::Failed(error@),
        }
    }
}

/// What to do next.
#[derive(Debug, PartialEq, Eq)]
pub enum Action {
    /// Get the document at this location.
    Fetch(String),
    /// Listen on a loopback port.
    Bind,
    /// Read the registration kept from an earlier login.
    Recall,
    /// Post this registration to this endpoint.
    Register { endpoint: String, body: Json },
    /// Open the browser here, tell the person so, and wait for the code that comes with this
    /// state.
    Authorize { url: String, notice: String, state: String },
    /// Post this form to this endpoint.
    Redeem { endpoint: String, form: Vec<(String, String)> },
    /// Store these tokens.
    Save(AuthTokens),
    /// Store this registration. It is no secret, and registering anew on every login would leave
    /// a trail of dead clients at the issuer.
    Remember(Registration),
    /// The person is signed in.
    Succeed,
    /// The login failed.
    Fail(AuthError),
}

/// What an [`Action`] says.
pub enum ActionView {
    Fetch(Seq<char>),
    Bind,
    Recall,
    Register { endpoint: Seq<char>, body: JsonView },
    Authorize { url: Seq<char>, notice: Seq<char>, state: Seq<char> },
    Redeem { endpoint: Seq<char>, form: Seq<(Seq<char>, Seq<char>)> },
    Save(TokensView),
    Remember(RegistrationView),
    Succeed,
    Fail(AuthErrorView),
}

impl View for Action {
    type V = ActionView;

    open spec fn view(&self) -> ActionView {
        match self {
            Action::Fetch(url) => ActionView::Fetch(url@),
            Action::Bind => ActionView::Bind,
            Action::Recall => ActionView::Recall,
            Action::Register { endpoint, body } => ActionView::Register {
                endpoint: endpoint@,
                body: body@,
            },
            Action::Authorize { url, notice, state } => ActionView::Authorize {
                url: url@,
                notice: notice@,
                state: state@,
            },
            Action::Redeem { endpoint, form } => ActionView::Redeem {
                endpoint: endpoint@,
                form: pairs(form@),
            },
            Action::Save(tokens) => ActionView::Save(tokens@),
            Action::Remember(registration) => ActionView::Remember(registration@),
            Action::Succeed => ActionView::Succeed,
            Action::Fail(error) => ActionView::Fail(error@),
        }
    }
}

/// A login under way.
#[derive(Debug, PartialEq, Eq)]
pub struct Login {
    name: String,
    url: String,
    pkce: Pkce,
    state: String,
    phase: Phase,
    /// The locations to try, and which one is being tried.
    candidates: Vec<String>,
    at: usize,
    protected: Protected,
    issuer: String,
    metadata: ServerMetadata,
    redirect_uri: String,
    client_id: String,
}

/// What a [`Login`] knows.
pub struct LoginView {
    pub name: Seq<char>,
    pub url: Seq<char>,
    pub pkce: PkceView,
    pub state: Seq<char>,
    pub phase: Phase,
    pub candidates: Seq<Seq<char>>,
    pub at: int,
    pub protected: ProtectedView,
    pub issuer: Seq<char>,
    pub metadata: MetadataView,
    pub redirect_uri: Seq<char>,
    pub client_id: Seq<char>,
}

impl View for Login {
    type V = LoginView;

    closed spec fn view(&self) -> LoginView {
        LoginView {
            name: self.name@,
            url: self.url@,
            pkce: self.pkce@,
            state: self.state@,
            phase: self.phase,
            candidates: texts(self.candidates@),
            at: self.at as int,
            protected: self.protected@,
            issuer: self.issuer@,
            metadata: self.metadata@,
            redirect_uri: self.redirect_uri@,
            client_id: self.client_id@,
        }
    }
}

/// How many bytes a character takes in a query: a letter, a digit, a blank and four marks one, and
/// any other three for each of its bytes.
pub open spec fn form_size(c: char) -> nat {
    if ('0' <= c && c <= '9') || ('A' <= c && c <= 'Z') || ('a' <= c && c <= 'z') || c == ' ' || c
        == '*' || c == '-' || c == '.' || c == '_' {
        1
    } else {
        3 * char_size(c)
    }
}

/// How many bytes a text takes in a query.
pub open spec fn form_bytes(s: Seq<char>) -> nat
    decreases s.len(),
{
    if s.len() == 0 {
        0
    } else {
        form_bytes(s.drop_last()) + form_size(s.last())
    }
}

/// How many bytes a query takes, with a mark before each name and each value.
pub open spec fn query_bytes(query: Seq<(Seq<char>, Seq<char>)>) -> nat
    decreases query.len(),
{
    if query.len() == 0 {
        0
    } else {
        query_bytes(query.drop_last()) + 2 + form_bytes(query.last().0) + form_bytes(
            query.last().1,
        )
    }
}

/// More bytes than any character of an endpoint is spelled in, be it one of a host's name.
pub const ENDPOINT_CHAR_BYTES: u64 = 255;

/// Whether an endpoint with a query behind it stays within the bytes that a URL may have.
pub open spec fn url_fits(endpoint: Seq<char>, query: Seq<(Seq<char>, Seq<char>)>) -> bool {
    ENDPOINT_CHAR_BYTES * endpoint.len() + query_bytes(query) <= u32::MAX
}

/// A count, or just more than a URL may have where it is more.
pub open spec fn capped_count(n: nat) -> nat {
    if n <= u32::MAX {
        n
    } else {
        u32::MAX as nat + 1
    }
}

/// The first characters of a text take no more bytes than all.
proof fn lemma_form_grows(s: Seq<char>, n: int)
    requires
        0 <= n <= s.len(),
    ensures
        form_bytes(s.take(n)) <= form_bytes(s),
    decreases s.len(),
{
    if n < s.len() {
        lemma_form_grows(s.drop_last(), n);
        assert(s.drop_last().take(n) =~= s.take(n));
    } else {
        assert(s.take(n) =~= s);
    }
}

/// How many bytes a text takes in a query, as far as that matters.
fn count_form(s: &str) -> (r: u64)
    ensures
        r == capped_count(form_bytes(s@)),
{
    let v = text::to_chars(s);
    let mut size: u64 = 0;
    let mut i: usize = 0;
    assert(v@.take(0) =~= Seq::empty());
    while i < v.len()
        invariant
            i <= v.len(),
            v@ == s@,
            size == form_bytes(v@.take(i as int)),
            size <= u32::MAX,
        decreases v.len() - i,
    {
        let c = v[i];
        assert(v@.take(i as int + 1).drop_last() =~= v@.take(i as int));
        let plain = ('0' <= c && c <= '9') || ('A' <= c && c <= 'Z') || ('a' <= c && c <= 'z') || c
            == ' ' || c == '*' || c == '-' || c == '.' || c == '_';
        let more: u64 = if plain {
            1
        } else {
            3 * size_of_char(c) as u64
        };
        size += more;
        i += 1;
        if size > u32::MAX as u64 {
            proof {
                lemma_form_grows(v@, i as int);
            }
            return u32::MAX as u64 + 1;
        }
    }
    assert(v@.take(i as int) =~= v@);
    size
}

/// The first pairs take no more bytes than all.
proof fn lemma_query_grows(query: Seq<(Seq<char>, Seq<char>)>, n: int)
    requires
        0 <= n <= query.len(),
    ensures
        query_bytes(query.take(n)) <= query_bytes(query),
    decreases query.len(),
{
    if n < query.len() {
        lemma_query_grows(query.drop_last(), n);
        assert(query.drop_last().take(n) =~= query.take(n));
    } else {
        assert(query.take(n) =~= query);
    }
}

/// Whether an endpoint with a query behind it stays within the bytes that a URL may have.
fn check_fits(endpoint: &str, query: &Vec<(String, String)>) -> (r: bool)
    ensures
        r == url_fits(endpoint@, pairs(query@)),
{
    let ghost all = pairs(query@);
    let n: usize = endpoint.unicode_len();
    if n > 16_843_009 {
        return false;
    }
    let mut size: u64 = ENDPOINT_CHAR_BYTES * n as u64;
    let ghost front = size as nat;
    let mut i: usize = 0;
    assert(all.take(0) =~= Seq::empty());
    while i < query.len()
        invariant
            i <= query.len(),
            all == pairs(query@),
            front == ENDPOINT_CHAR_BYTES * endpoint@.len(),
            size == front + query_bytes(all.take(i as int)),
            size <= u32::MAX,
        decreases query.len() - i,
    {
        assert(all.take(i as int + 1).drop_last() =~= all.take(i as int));
        assert(all[i as int] == (query@[i as int].0@, query@[i as int].1@));
        let name: u64 = count_form(query[i].0.as_str());
        let value: u64 = count_form(query[i].1.as_str());
        size = size + 2 + name + value;
        i += 1;
        if size > u32::MAX as u64 {
            proof {
                lemma_query_grows(all, i as int);
            }
            return false;
        }
    }
    assert(all.take(i as int) =~= all);
    true
}

/// An endpoint with a query behind it, or why it is no URL.
pub uninterp spec fn with_query(endpoint: Seq<char>, query: Seq<(Seq<char>, Seq<char>)>) -> Result<
    Seq<char>,
    Seq<char>,
>;

/// `url::Url::parse_with_params`, as text: the URL with the pairs appended to its query, or the
/// message of the error where it is none. It panics on a URL that outgrows its 32-bit offsets. The
/// pairs take the bytes of their form encoding, and a character of the endpoint fewer than are
/// allowed for it here, even where a host's name is spelled in ASCII.
/// What it says is a function of the endpoint and the pairs.
#[verifier::external_body]
fn append_query(endpoint: &str, query: &Vec<(String, String)>) -> (r: Result<String, String>)
    requires
        url_fits(endpoint@, pairs(query@)),
    ensures
        match with_query(endpoint@, pairs(query@)) {
            Ok(url) => r is Ok && r->Ok_0@ == url,
            Err(error) => r is Err && r->Err_0@ == error,
        },
{
    url::Url::parse_with_params(endpoint, query).map(|url| url.to_string()).map_err(
        |error| error.to_string(),
    )
}

/// What the server is asked to provoke its challenge.
pub open spec fn challenge_json() -> JsonView {
    JsonView::Object(
        seq![
            ("jsonrpc"@, JsonView::Text("2.0"@)),
            ("id"@, JsonView::Number(text::decimal_of(1))),
            ("method"@, JsonView::Text("initialize"@)),
            ("params"@, JsonView::Object(Seq::empty())),
        ],
    )
}

/// What the server is asked to provoke its challenge.
pub fn challenge_body() -> (r: Json)
    ensures
        r@ == challenge_json(),
{
    let mut members = no_members();
    push_member(&mut members, "jsonrpc", Json::text("2.0"));
    push_member(&mut members, "id", Json::number(1));
    push_member(&mut members, "method", Json::text("initialize"));
    push_member(&mut members, "params", Json::Object(no_members()));
    assert(member_views(members@) =~= challenge_json()->Object_0);
    Json::Object(members)
}

/// The registration of a public client: there is no secret a terminal program could keep, and
/// saying so is what makes the proof key the proof instead.
pub open spec fn client_json(redirect_uri: Seq<char>) -> JsonView {
    JsonView::Object(
        seq![
            ("client_name"@, JsonView::Text("keke"@)),
            ("redirect_uris"@, JsonView::Array(seq![JsonView::Text(redirect_uri)])),
            (
                "grant_types"@,
                JsonView::Array(
                    seq![JsonView::Text("authorization_code"@), JsonView::Text("refresh_token"@)],
                ),
            ),
            ("response_types"@, JsonView::Array(seq![JsonView::Text("code"@)])),
            ("token_endpoint_auth_method"@, JsonView::Text("none"@)),
        ],
    )
}

/// The registration of a public client.
fn client_body(redirect_uri: &str) -> (r: Json)
    ensures
        r@ == client_json(redirect_uri@),
{
    let mut uris = no_items();
    push_json(&mut uris, Json::text(redirect_uri));
    let mut grants = no_items();
    push_json(&mut grants, Json::text("authorization_code"));
    push_json(&mut grants, Json::text("refresh_token"));
    let mut responses = no_items();
    push_json(&mut responses, Json::text("code"));
    let mut members = no_members();
    push_member(&mut members, "client_name", Json::text("keke"));
    push_member(&mut members, "redirect_uris", Json::Array(uris));
    push_member(&mut members, "grant_types", Json::Array(grants));
    push_member(&mut members, "response_types", Json::Array(responses));
    push_member(&mut members, "token_endpoint_auth_method", Json::text("none"));
    assert(crate::protocol::json_views(uris@) =~= seq![JsonView::Text(redirect_uri@)]);
    assert(crate::protocol::json_views(grants@) =~= seq![
        JsonView::Text("authorization_code"@),
        JsonView::Text("refresh_token"@),
    ]);
    assert(crate::protocol::json_views(responses@) =~= seq![JsonView::Text("code"@)]);
    assert(member_views(members@) =~= client_json(redirect_uri@)->Object_0);
    Json::Object(members)
}

/// A name in backquotes, with a text behind it.
pub open spec fn of_server(name: Seq<char>, rest: Seq<char>) -> Seq<char> {
    "`"@ + name + "`"@ + rest
}

/// A name in backquotes, with a text behind it.
fn about(name: &str, rest: &str) -> (r: String)
    ensures
        r@ == of_server(name@, rest@),
{
    let mut r = text::concat3("`", name, "`");
    r.append(rest);
    r
}

impl LoginView {
    /// What the token is bound to.
    pub open spec fn resource(self) -> Seq<char> {
        match self.protected.resource {
            Some(resource) => resource,
            None => self.url,
        }
    }

    /// What the browser asks the authorization server for. Without the resource the issuer may
    /// mint a token for a different audience, which a careful resource server then refuses.
    pub open spec fn query(self) -> Seq<(Seq<char>, Seq<char>)> {
        let asked = seq![
            ("response_type"@, "code"@),
            ("client_id"@, self.client_id),
            ("redirect_uri"@, self.redirect_uri),
            ("state"@, self.state),
            ("code_challenge"@, self.pkce.challenge),
            ("code_challenge_method"@, "S256"@),
            ("resource"@, self.resource()),
        ];
        match self.protected.scope() {
            Some(scope) => asked.push(("scope"@, scope)),
            None => asked,
        }
    }

    /// The form that redeems a code.
    pub open spec fn form(self, code: Seq<char>) -> Seq<(Seq<char>, Seq<char>)> {
        seq![
            ("grant_type"@, "authorization_code"@),
            ("code"@, code),
            ("redirect_uri"@, self.redirect_uri),
            ("client_id"@, self.client_id),
            ("code_verifier"@, self.pkce.verifier),
            ("resource"@, self.resource()),
        ]
    }

    /// The registration to keep.
    pub open spec fn registration(self) -> RegistrationView {
        RegistrationView {
            client_id: self.client_id,
            authorization_endpoint: self.metadata.authorization_endpoint,
            token_endpoint: self.metadata.token_endpoint,
            registration_endpoint: self.metadata.registration_endpoint,
        }
    }

    /// The end, with a failure.
    pub open spec fn failed(self, error: AuthErrorView) -> (LoginView, ActionView) {
        (LoginView { phase: Phase::Finished, ..self }, ActionView::Fail(error))
    }

    /// Trying the locations about the resource from `at` on.
    pub open spec fn seeking_resource(self, candidates: Seq<Seq<char>>, at: int) -> (
        LoginView,
        ActionView,
    ) {
        let now = LoginView { phase: Phase::FindingResource, candidates, at, ..self };
        if at < candidates.len() {
            (now, ActionView::Fetch(candidates[at]))
        } else {
            now.failed(
                AuthErrorView::Other(
                    of_server(
                        self.name,
                        " published no OAuth metadata at "@ + joined(candidates, " or "@)
                            + ", so keke cannot tell where to sign in"@,
                    ),
                ),
            )
        }
    }

    /// Trying the locations about the authorization server from `at` on. Where they hold nothing,
    /// the endpoints every issuer conventionally serves are used.
    pub open spec fn seeking_issuer(self, candidates: Seq<Seq<char>>, at: int) -> (
        LoginView,
        ActionView,
    ) {
        let now = LoginView { phase: Phase::FindingIssuer, candidates, at, ..self };
        if at < candidates.len() {
            (now, ActionView::Fetch(candidates[at]))
        } else {
            now.located(conventional(self.issuer))
        }
    }

    /// The authorization server is known.
    pub open spec fn located(self, metadata: MetadataView) -> (LoginView, ActionView) {
        (LoginView { phase: Phase::Binding, metadata, ..self }, ActionView::Bind)
    }

    /// The client is known: on to the browser.
    pub open spec fn identified(self, client_id: Seq<char>) -> (LoginView, ActionView) {
        let now = LoginView { phase: Phase::Authorizing, client_id, ..self };
        match with_query(self.metadata.authorization_endpoint, now.query()) {
            Ok(url) => (
                now,
                ActionView::Authorize {
                    url,
                    notice: "waiting for the browser to authorize `"@ + self.name + "`"@,
                    state: self.state,
                },
            ),
            Err(error) => now.failed(
                AuthErrorView::Other("authorize endpoint is not a URL: "@ + error),
            ),
        }
    }

    /// Whether the last action can have come to this.
    pub open spec fn awaits(self, event: EventView) -> bool {
        match event {
            EventView::Failed(_) => self.phase != Phase::Finished,
            EventView::Challenged { .. } => self.phase == Phase::Challenging,
            EventView::Unchallenged => self.phase == Phase::Challenging,
            EventView::Resource(_) => self.phase == Phase::FindingResource,
            EventView::Metadata(_) => self.phase == Phase::FindingIssuer,
            EventView::Bound(_) => self.phase == Phase::Binding,
            EventView::NoPort(_) => self.phase == Phase::Binding,
            EventView::Recalled(_) => self.phase == Phase::Recalling,
            EventView::Unreachable(_) => self.phase == Phase::Registering || self.phase
                == Phase::Redeeming,
            EventView::Unusable(_) => self.phase == Phase::Registering || self.phase
                == Phase::Redeeming,
            EventView::Replied(_) => self.phase == Phase::Registering || self.phase
                == Phase::Redeeming,
            EventView::Code(_) => self.phase == Phase::Authorizing,
            EventView::Stored => self.phase == Phase::Saving || self.phase == Phase::Remembering,
        }
    }

    /// The client that an event makes known.
    pub open spec fn client_in(self, event: EventView) -> Option<Seq<char>> {
        match event {
            EventView::Recalled(Some(kept)) => if kept.token_endpoint
                == self.metadata.token_endpoint {
                Some(kept.client_id)
            } else {
                None
            },
            EventView::Replied(reply) => if self.phase == Phase::Registering
                && reply.succeeded() {
                reply.body.client_id
            } else {
                None
            },
            _ => None,
        }
    }

    /// Whether what an event brings stays within the machine's limits: an address has to be one
    /// that a URL can have, and a token that outlives the clock has no end.
    pub open spec fn within_limits(self, event: EventView) -> bool {
        &&& match self.client_in(event) {
            Some(client_id) => url_fits(
                self.metadata.authorization_endpoint,
                LoginView { client_id, ..self }.query(),
            ),
            None => true,
        }
        &&& match event {
            EventView::Replied(reply) => reply.ends_in_time(),
            _ => true,
        }
    }

    /// The login after an event, and what to do then.
    pub open spec fn next(self, event: EventView) -> (LoginView, ActionView) {
        match event {
            EventView::Challenged { status, header } => {
                let hint = if status == 401 && header is Some {
                    metadata_hint(header->0)
                } else {
                    None
                };
                let known = well_known_at(self.url, "oauth-protected-resource"@);
                self.seeking_resource(
                    match hint {
                        Some(hint) => seq![hint] + known,
                        None => known,
                    },
                    0,
                )
            },
            EventView::Unchallenged => self.seeking_resource(
                well_known_at(self.url, "oauth-protected-resource"@),
                0,
            ),
            EventView::Resource(found) => match found {
                Some(protected) => if protected.authorization_servers.len() > 0 {
                    let issuer = protected.authorization_servers[0];
                    LoginView { protected, issuer, ..self }.seeking_issuer(
                        well_known_at(issuer, "oauth-authorization-server"@) + well_known_at(
                            issuer,
                            "openid-configuration"@,
                        ),
                        0,
                    )
                } else {
                    self.seeking_resource(self.candidates, self.at + 1)
                },
                None => self.seeking_resource(self.candidates, self.at + 1),
            },
            EventView::Metadata(found) => match found {
                Some(metadata) => if metadata.authorization_endpoint.len() > 0
                    && metadata.token_endpoint.len() > 0 {
                    self.located(metadata)
                } else {
                    self.seeking_issuer(self.candidates, self.at + 1)
                },
                None => self.seeking_issuer(self.candidates, self.at + 1),
            },
            EventView::Bound(redirect_uri) => (
                LoginView { phase: Phase::Recalling, redirect_uri, ..self },
                ActionView::Recall,
            ),
            EventView::NoPort(error) => self.failed(
                AuthErrorView::Other("no loopback port available: "@ + error),
            ),
            EventView::Recalled(_) => match self.client_in(event) {
                Some(client_id) => self.identified(client_id),
                None => match self.metadata.registration_endpoint {
                    Some(endpoint) => (
                        LoginView { phase: Phase::Registering, ..self },
                        ActionView::Register { endpoint, body: client_json(self.redirect_uri) },
                    ),
                    None => self.failed(
                        AuthErrorView::Other(
                            of_server(
                                self.name,
                                " offers no client registration and keke has no client id for it"@,
                            ),
                        ),
                    ),
                },
            },
            EventView::Unreachable(error) => self.failed(
                AuthErrorView::Other(
                    if self.phase == Phase::Registering {
                        "could not register with `"@ + self.name + "`: "@ + error
                    } else {
                        "the token endpoint is unreachable: "@ + error
                    },
                ),
            ),
            EventView::Unusable(error) => self.failed(
                AuthErrorView::Other(
                    if self.phase == Phase::Registering {
                        "registration answered unusably: "@ + error
                    } else {
                        "the token endpoint answered unusably: "@ + error
                    },
                ),
            ),
            EventView::Replied(reply) => if self.phase == Phase::Registering {
                if !reply.succeeded() {
                    self.failed(
                        AuthErrorView::Rejected(
                            of_server(
                                self.name,
                                " refused to register a client ("@ + reply.status_line + "): "@
                                    + described(reply.body),
                            ),
                        ),
                    )
                } else {
                    match reply.body.client_id {
                        Some(client_id) => self.identified(client_id),
                        None => self.failed(
                            AuthErrorView::Other("the registration returned no client id"@),
                        ),
                    }
                }
            } else {
                match issued(reply) {
                    Err(error) => self.failed(error),
                    Ok(tokens) => (
                        LoginView { phase: Phase::Saving, ..self },
                        ActionView::Save(TokensView { issuer: Some(self.issuer), ..tokens }),
                    ),
                }
            },
            EventView::Code(code) => (
                LoginView { phase: Phase::Redeeming, ..self },
                ActionView::Redeem {
                    endpoint: self.metadata.token_endpoint,
                    form: self.form(code),
                },
            ),
            EventView::Stored => if self.phase == Phase::Saving {
                (
                    LoginView { phase: Phase::Remembering, ..self },
                    ActionView::Remember(self.registration()),
                )
            } else {
                (LoginView { phase: Phase::Finished, ..self }, ActionView::Succeed)
            },
            EventView::Failed(error) => self.failed(error),
        }
    }

    /// Whether a login is being tried at a location it has.
    pub open spec fn valid(self) -> bool {
        self.phase == Phase::FindingResource || self.phase == Phase::FindingIssuer ==> 0 <= self.at
            < self.candidates.len()
    }
}

impl Login {
    #[verifier::type_invariant]
    closed spec fn on_track(self) -> bool {
        self@.valid()
    }

    /// A login to the server `name` at `url`, with its proof key and its state. It waits for the
    /// server's answer to an unauthenticated request.
    pub fn start(name: &str, url: &str, pkce: Pkce, state: String) -> (r: Login)
        ensures
            r@ == (LoginView {
                name: name@,
                url: url@,
                pkce: pkce@,
                state: state@,
                phase: Phase::Challenging,
                candidates: Seq::empty(),
                at: 0,
                protected: ProtectedView {
                    authorization_servers: Seq::empty(),
                    resource: None,
                    scopes_supported: Seq::empty(),
                },
                issuer: Seq::empty(),
                metadata: MetadataView {
                    authorization_endpoint: Seq::empty(),
                    token_endpoint: Seq::empty(),
                    registration_endpoint: None,
                },
                redirect_uri: Seq::empty(),
                client_id: Seq::empty(),
            }),
    {
        proof {
            reveal_strlit("");
        }
        let r = Login {
            name: text::copy(name),
            url: text::copy(url),
            pkce,
            state,
            phase: Phase::Challenging,
            candidates: text::no_texts(),
            at: 0,
            protected: Protected {
                authorization_servers: text::no_texts(),
                resource: None,
                scopes_supported: text::no_texts(),
            },
            issuer: text::copy(""),
            metadata: ServerMetadata {
                authorization_endpoint: text::copy(""),
                token_endpoint: text::copy(""),
                registration_endpoint: None,
            },
            redirect_uri: text::copy(""),
            client_id: text::copy(""),
        };
        assert(""@ =~= Seq::<char>::empty());
        r
    }

    /// A login with a proof key and a state of its own.
    pub fn begin(name: &str, url: &str) -> (r: Login)
        ensures
            r@.name == name@,
            r@.url == url@,
            r@.pkce.valid(),
            r@.phase == Phase::Challenging,
            exists|random: Seq<u8>| #![trigger oauth::base64url(random)]
                random.len() == 16 && r@.state == oauth::base64url(random),
    {
        let pkce = Pkce::generate();
        let state = oauth::random_token(16);
        Login::start(name, url, pkce, state)
    }

    /// What the login waits for.
    pub fn phase(&self) -> (r: Phase)
        ensures
            r == self@.phase,
    {
        self.phase
    }

    fn fail(self, error: AuthError) -> (r: (Login, Action))
        ensures
            (r.0@, r.1@) == self@.failed(error@),
    {
        let mut now = self;
        now.phase = Phase::Finished;
        (now, Action::Fail(error))
    }

    fn seek_resource(self, candidates: Vec<String>, at: usize) -> (r: (Login, Action))
        ensures
            (r.0@, r.1@) == self@.seeking_resource(texts(candidates@), at as int),
    {
        assert(texts(candidates@).len() == candidates.len());
        if at < candidates.len() {
            let url = candidates[at].clone();
            (
                Login { phase: Phase::FindingResource, candidates, at, ..self },
                Action::Fetch(url),
            )
        } else {
            let places = text::join(&candidates, " or ");
            let rest = text::concat3(
                " published no OAuth metadata at ",
                places.as_str(),
                ", so keke cannot tell where to sign in",
            );
            let message = about(self.name.as_str(), rest.as_str());
            (
                Login { phase: Phase::Finished, candidates, at, ..self },
                Action::Fail(AuthError::Other(message)),
            )
        }
    }

    fn locate(self, metadata: ServerMetadata) -> (r: (Login, Action))
        ensures
            (r.0@, r.1@) == self@.located(metadata@),
    {
        let mut now = self;
        now.phase = Phase::Binding;
        now.metadata = metadata;
        (now, Action::Bind)
    }

    fn seek_issuer(self, candidates: Vec<String>, at: usize) -> (r: (Login, Action))
        ensures
            (r.0@, r.1@) == self@.seeking_issuer(texts(candidates@), at as int),
    {
        assert(texts(candidates@).len() == candidates.len());
        if at < candidates.len() {
            let url = candidates[at].clone();
            (Login { phase: Phase::FindingIssuer, candidates, at, ..self }, Action::Fetch(url))
        } else {
            let metadata = ServerMetadata::conventional(self.issuer.as_str());
            Login { phase: Phase::Binding, candidates, at, ..self }.locate(metadata)
        }
    }

    /// What the browser asks the authorization server for, on behalf of a client.
    fn query(&self, client_id: &str) -> (r: Vec<(String, String)>)
        ensures
            pairs(r@) == (LoginView { client_id: client_id@, ..self@ }).query(),
    {
        let resource = match &self.protected.resource {
            Some(resource) => resource.as_str(),
            None => self.url.as_str(),
        };
        let mut query = text::no_pairs();
        text::push_pair(&mut query, "response_type", "code");
        text::push_pair(&mut query, "client_id", client_id);
        text::push_pair(&mut query, "redirect_uri", self.redirect_uri.as_str());
        text::push_pair(&mut query, "state", self.state.as_str());
        text::push_pair(&mut query, "code_challenge", self.pkce.challenge.as_str());
        text::push_pair(&mut query, "code_challenge_method", "S256");
        text::push_pair(&mut query, "resource", resource);
        if let Some(scope) = self.protected.scope() {
            text::push_pair(&mut query, "scope", scope.as_str());
        }
        assert(pairs(query@) =~= (LoginView { client_id: client_id@, ..self@ }).query());
        query
    }

    /// Whether what an event brings stays within the machine's limits.
    pub fn fits(&self, event: &Event) -> (r: bool)
        ensures
            r == self@.within_limits(event@),
    {
        match event {
            Event::Recalled(Some(kept)) => if text::eq(
                kept.token_endpoint.as_str(),
                self.metadata.token_endpoint.as_str(),
            ) {
                let query = self.query(kept.client_id.as_str());
                check_fits(self.metadata.authorization_endpoint.as_str(), &query)
            } else {
                true
            },
            Event::Replied(reply) => {
                let ends = match reply.body.expires_in {
                    Some(seconds) => reply.now.checked_add(seconds).is_some(),
                    None => true,
                };
                let client_fits = match &reply.body.client_id {
                    Some(client_id) => if self.phase == Phase::Registering && 200 <= reply.status
                        && reply.status < 300 {
                        let query = self.query(client_id.as_str());
                        check_fits(self.metadata.authorization_endpoint.as_str(), &query)
                    } else {
                        true
                    },
                    None => true,
                };
                ends && client_fits
            },
            _ => true,
        }
    }

    fn identify(self, client_id: String) -> (r: (Login, Action))
        requires
            url_fits(
                self@.metadata.authorization_endpoint,
                LoginView { client_id: client_id@, ..self@ }.query(),
            ),
        ensures
            (r.0@, r.1@) == self@.identified(client_id@),
    {
        let mut now = self;
        now.phase = Phase::Authorizing;
        now.client_id = client_id;
        let query = now.query(now.client_id.as_str());
        match append_query(now.metadata.authorization_endpoint.as_str(), &query) {
            Ok(url) => {
                let notice = text::concat3(
                    "waiting for the browser to authorize `",
                    now.name.as_str(),
                    "`",
                );
                let state = now.state.clone();
                (now, Action::Authorize { url, notice, state })
            },
            Err(error) => {
                let message = text::concat("authorize endpoint is not a URL: ", error.as_str());
                now.fail(AuthError::Other(message))
            },
        }
    }

    fn challenged(self, hint: Option<String>) -> (r: (Login, Action))
        ensures
            (r.0@, r.1@) == ({
                let known = well_known_at(self@.url, "oauth-protected-resource"@);
                self@.seeking_resource(
                    match opt(hint) {
                        Some(hint) => seq![hint] + known,
                        None => known,
                    },
                    0,
                )
            }),
    {
        let mut candidates = text::no_texts();
        let known = auth::well_known(self.url.as_str(), "oauth-protected-resource");
        if let Some(hint) = &hint {
            text::push_text(&mut candidates, hint.as_str());
        }
        text::append_texts(&mut candidates, &known);
        assert(texts(candidates@) =~= match opt(hint) {
            Some(hint) => seq![hint] + texts(known@),
            None => texts(known@),
        });
        self.seek_resource(candidates, 0)
    }

    fn found_resource(self, found: Option<Protected>) -> (r: (Login, Action))
        requires
            self@.phase == Phase::FindingResource,
        ensures
            (r.0@, r.1@) == self@.next(
                EventView::Resource(
                    match found {
                        Some(found) => Some(found@),
                        None => None,
                    },
                ),
            ),
    {
        proof {
            use_type_invariant(&self);
        }
        if let Some(protected) = found {
            assert(protected@.authorization_servers.len()
                == protected.authorization_servers.len());
            if protected.authorization_servers.len() > 0 {
                let issuer = protected.authorization_servers[0].clone();
                let mut candidates = auth::well_known(
                    issuer.as_str(),
                    "oauth-authorization-server",
                );
                let more = auth::well_known(issuer.as_str(), "openid-configuration");
                text::append_texts(&mut candidates, &more);
                let mut now = self;
                now.protected = protected;
                now.issuer = issuer;
                return now.seek_issuer(candidates, 0);
            }
        }
        let candidates = text::copy_texts(&self.candidates);
        assert(self@.candidates.len() == self.candidates.len());
        let at = self.at + 1;
        self.seek_resource(candidates, at)
    }

    fn found_metadata(self, found: Option<ServerMetadata>) -> (r: (Login, Action))
        requires
            self@.phase == Phase::FindingIssuer,
        ensures
            (r.0@, r.1@) == self@.next(
                EventView::Metadata(
                    match found {
                        Some(found) => Some(found@),
                        None => None,
                    },
                ),
            ),
    {
        proof {
            use_type_invariant(&self);
        }
        if let Some(metadata) = found {
            if metadata.is_usable() {
                return self.locate(metadata);
            }
        }
        let candidates = text::copy_texts(&self.candidates);
        assert(self@.candidates.len() == self.candidates.len());
        let at = self.at + 1;
        self.seek_issuer(candidates, at)
    }

    fn recalled(self, kept: Option<Registration>) -> (r: (Login, Action))
        requires
            self@.phase == Phase::Recalling,
            self@.within_limits(EventView::Recalled(registration_view(kept))),
        ensures
            (r.0@, r.1@) == self@.next(EventView::Recalled(registration_view(kept))),
    {
        if let Some(kept) = kept {
            if text::eq(kept.token_endpoint.as_str(), self.metadata.token_endpoint.as_str()) {
                return self.identify(kept.client_id);
            }
        }
        match text::copy_opt(&self.metadata.registration_endpoint) {
            Some(endpoint) => {
                let body = client_body(self.redirect_uri.as_str());
                let mut now = self;
                now.phase = Phase::Registering;
                (now, Action::Register { endpoint, body })
            },
            None => {
                let message = about(
                    self.name.as_str(),
                    " offers no client registration and keke has no client id for it",
                );
                self.fail(AuthError::Other(message))
            },
        }
    }

    fn registered(self, reply: Reply) -> (r: (Login, Action))
        requires
            self@.phase == Phase::Registering,
            self@.within_limits(EventView::Replied(reply@)),
        ensures
            (r.0@, r.1@) == self@.next(EventView::Replied(reply@)),
    {
        if !(200 <= reply.status && reply.status < 300) {
            let reason = auth::describe(&reply.body);
            let mut rest = text::concat3(
                " refused to register a client (",
                reply.status_line.as_str(),
                "): ",
            );
            rest.append(reason.as_str());
            let message = about(self.name.as_str(), rest.as_str());
            return self.fail(AuthError::Rejected(message));
        }
        match reply.body.client_id {
            Some(client_id) => self.identify(client_id),
            None => self.fail(
                AuthError::Other(text::copy("the registration returned no client id")),
            ),
        }
    }

    fn redeem(self, code: String) -> (r: (Login, Action))
        ensures
            (r.0@, r.1@) == self@.next(EventView::Code(code@)),
    {
        let resource = match &self.protected.resource {
            Some(resource) => resource.as_str(),
            None => self.url.as_str(),
        };
        let mut form = text::no_pairs();
        text::push_pair(&mut form, "grant_type", "authorization_code");
        text::push_pair(&mut form, "code", code.as_str());
        text::push_pair(&mut form, "redirect_uri", self.redirect_uri.as_str());
        text::push_pair(&mut form, "client_id", self.client_id.as_str());
        text::push_pair(&mut form, "code_verifier", self.pkce.verifier.as_str());
        text::push_pair(&mut form, "resource", resource);
        assert(pairs(form@) =~= self@.form(code@));
        let endpoint = self.metadata.token_endpoint.clone();
        let mut now = self;
        now.phase = Phase::Redeeming;
        (now, Action::Redeem { endpoint, form })
    }

    fn redeemed(self, reply: Reply) -> (r: (Login, Action))
        requires
            self@.phase == Phase::Redeeming,
            reply@.ends_in_time(),
        ensures
            (r.0@, r.1@) == self@.next(EventView::Replied(reply@)),
    {
        match auth::token_set(&reply) {
            Err(error) => self.fail(error),
            Ok(tokens) => {
                let mut now = self;
                now.phase = Phase::Saving;
                let mut tokens = tokens;
                tokens.issuer = Some(now.issuer.clone());
                (now, Action::Save(tokens))
            },
        }
    }

    fn stored(self) -> (r: (Login, Action))
        ensures
            (r.0@, r.1@) == self@.next(EventView::Stored),
    {
        let mut now = self;
        if matches!(now.phase, Phase::Saving) {
            now.phase = Phase::Remembering;
            let registration = Registration {
                client_id: now.client_id.clone(),
                authorization_endpoint: now.metadata.authorization_endpoint.clone(),
                token_endpoint: now.metadata.token_endpoint.clone(),
                registration_endpoint: text::copy_opt(&now.metadata.registration_endpoint),
            };
            (now, Action::Remember(registration))
        } else {
            now.phase = Phase::Finished;
            (now, Action::Succeed)
        }
    }

    fn unreachable(self, error: String) -> (r: (Login, Action))
        ensures
            (r.0@, r.1@) == self@.next(EventView::Unreachable(error@)),
    {
        let message = if matches!(self.phase, Phase::Registering) {
            let mut message = text::concat3(
                "could not register with `",
                self.name.as_str(),
                "`: ",
            );
            message.append(error.as_str());
            message
        } else {
            text::concat("the token endpoint is unreachable: ", error.as_str())
        };
        self.fail(AuthError::Other(message))
    }

    fn unusable(self, error: String) -> (r: (Login, Action))
        ensures
            (r.0@, r.1@) == self@.next(EventView::Unusable(error@)),
    {
        let message = if matches!(self.phase, Phase::Registering) {
            text::concat("registration answered unusably: ", error.as_str())
        } else {
            text::concat("the token endpoint answered unusably: ", error.as_str())
        };
        self.fail(AuthError::Other(message))
    }

    /// Takes what came of the last action, and says what to do next.
    pub fn next(self, event: Event) -> (r: (Login, Action))
        requires
            self@.awaits(event@),
            self@.within_limits(event@),
        ensures
            (r.0@, r.1@) == self@.next(event@),
    {
        match event {
            Event::Challenged { status, header } => {
                let hint = match header {
                    Some(header) => if status == 401 {
                        auth::resource_metadata_hint(header.as_str())
                    } else {
                        None
                    },
                    None => None,
                };
                self.challenged(hint)
            },
            Event::Unchallenged => self.challenged(None),
            Event::Resource(found) => self.found_resource(found),
            Event::Metadata(found) => self.found_metadata(found),
            Event::Bound(redirect_uri) => {
                let mut now = self;
                now.phase = Phase::Recalling;
                now.redirect_uri = redirect_uri;
                (now, Action::Recall)
            },
            Event::NoPort(error) => {
                let message = text::concat("no loopback port available: ", error.as_str());
                self.fail(AuthError::Other(message))
            },
            Event::Recalled(kept) => self.recalled(kept),
            Event::Unreachable(error) => self.unreachable(error),
            Event::Unusable(error) => self.unusable(error),
            Event::Replied(reply) => if matches!(self.phase, Phase::Registering) {
                self.registered(reply)
            } else {
                self.redeemed(reply)
            },
            Event::Code(code) => self.redeem(code),
            Event::Stored => self.stored(),
            Event::Failed(error) => self.fail(error),
        }
    }
}

// Laws.

/// The value of the first pair with this key.
pub open spec fn field(query: Seq<(Seq<char>, Seq<char>)>, key: Seq<char>) -> Option<Seq<char>>
    decreases query.len(),
{
    if query.len() == 0 {
        None
    } else if query[0].0 == key {
        Some(query[0].1)
    } else {
        field(query.drop_first(), key)
    }
}

/// The field at `i`, where no earlier one has its key.
proof fn lemma_field(query: Seq<(Seq<char>, Seq<char>)>, i: int)
    requires
        0 <= i < query.len(),
        forall|j: int| 0 <= j < i ==> (#[trigger] query[j]).0 != query[i].0,
    ensures
        field(query, query[i].0) == Some(query[i].1),
    decreases i,
{
    if i > 0 {
        assert(query[0].0 != query[i].0);
        assert(query.drop_first()[i - 1] == query[i]);
        lemma_field(query.drop_first(), i - 1);
    }
}

/// What the browser was sent to authorize is what the code is redeemed for: the same client, the
/// same way back and the same resource, with the verifier whose challenge the browser carried.
pub proof fn what_is_redeemed_is_what_was_authorized(login: LoginView, code: Seq<char>)
    requires
        login.phase == Phase::Authorizing,
        login.pkce.valid(),
    ensures
        ({
            let (after, action) = login.next(EventView::Code(code));
            let query = login.query();
            &&& after.phase == Phase::Redeeming
            &&& action is Redeem
            &&& action->Redeem_endpoint == login.metadata.token_endpoint
            &&& field(action->form, "code"@) == Some(code)
            &&& field(action->form, "client_id"@) == field(query, "client_id"@)
            &&& field(action->form, "redirect_uri"@) == field(query, "redirect_uri"@)
            &&& field(action->form, "resource"@) == field(query, "resource"@)
            &&& field(action->form, "code_verifier"@) is Some
            &&& field(query, "code_challenge"@) == Some(
                oauth::challenge_of(field(action->form, "code_verifier"@)->0),
            )
        }),
{
    reveal_strlit("grant_type");
    reveal_strlit("code");
    reveal_strlit("redirect_uri");
    reveal_strlit("client_id");
    reveal_strlit("code_verifier");
    reveal_strlit("resource");
    reveal_strlit("response_type");
    reveal_strlit("state");
    reveal_strlit("code_challenge");
    reveal_strlit("code_challenge_method");
    let form = login.form(code);
    let query = login.query();
    assert("code"@.len() == 4);
    assert("state"@.len() == 5);
    assert("client_id"@.len() == 9);
    assert("grant_type"@.len() == 10);
    assert("resource"@.len() == 8);
    assert("redirect_uri"@.len() == 12);
    assert("response_type"@.len() == 13);
    assert("code_verifier"@.len() == 13);
    assert("code_challenge"@.len() == 14);
    assert("code_challenge_method"@.len() == 21);
    lemma_field(form, 1);
    lemma_field(form, 2);
    lemma_field(form, 3);
    lemma_field(form, 4);
    lemma_field(form, 5);
    lemma_field(query, 1);
    lemma_field(query, 2);
    lemma_field(query, 4);
    lemma_field(query, 6);
}

/// How many phases are left.
pub open spec fn phases_left(phase: Phase) -> int {
    match phase {
        Phase::Challenging => 10,
        Phase::FindingResource => 9,
        Phase::FindingIssuer => 8,
        Phase::Binding => 7,
        Phase::Recalling => 6,
        Phase::Registering => 5,
        Phase::Authorizing => 4,
        Phase::Redeeming => 3,
        Phase::Saving => 2,
        Phase::Remembering => 1,
        Phase::Finished => 0,
    }
}

/// A login ends: each event takes it to a later phase, or to the next of the locations that the
/// phase tries. It never goes back, so the browser opens at most once.
pub proof fn every_event_brings_the_end_closer(login: LoginView, event: EventView)
    requires
        login.valid(),
        login.awaits(event),
    ensures
        ({
            let after = login.next(event).0;
            ||| phases_left(after.phase) < phases_left(login.phase)
            ||| after.phase == login.phase && after.candidates == login.candidates && after.at
                == login.at + 1
        }),
        login.next(event).0.valid(),
{
}

/// The browser opens only for a client that is known, and what it opens carries the state that is
/// then waited for.
pub proof fn the_browser_opens_for_a_known_client(login: LoginView, event: EventView)
    requires
        login.awaits(event),
        login.next(event).1 is Authorize,
    ensures
        login.phase == Phase::Recalling || login.phase == Phase::Registering,
        login.client_in(event) is Some,
        login.next(event).0.client_id == login.client_in(event)->0,
        field(login.next(event).0.query(), "state"@) == Some(login.next(event).1->state),
{
    reveal_strlit("response_type");
    reveal_strlit("client_id");
    reveal_strlit("redirect_uri");
    reveal_strlit("state");
    let query = login.next(event).0.query();
    assert("state"@.len() == 5);
    assert("client_id"@.len() == 9);
    assert("redirect_uri"@.len() == 12);
    assert("response_type"@.len() == 13);
    lemma_field(query, 3);
}

/// Tokens are stored only where the token endpoint issued them, under the issuer that the
/// resource named; and the login succeeds only once they and the registration are stored.
pub proof fn only_issued_tokens_are_stored(login: LoginView, event: EventView)
    requires
        login.awaits(event),
    ensures
        login.next(event).1 is Save ==> {
            &&& login.phase == Phase::Redeeming
            &&& event is Replied
            &&& issued(event->Replied_0) is Ok
            &&& login.next(event).1->Save_0 == (TokensView {
                issuer: Some(login.issuer),
                ..issued(event->Replied_0)->Ok_0
            })
        },
        login.next(event).1 is Succeed ==> login.phase == Phase::Remembering && event is Stored,
        login.next(event).1 is Remember ==> login.phase == Phase::Saving && event is Stored,
{
}

/// The location that the server itself names is tried first, where it refused the request and named
/// one; then those where such a document conventionally stands, and each in turn until one holds it.
pub proof fn locations_are_tried_in_turn(login: LoginView, header: Seq<char>, found: ProtectedView)
    ensures
        ({
            let known = well_known_at(login.url, "oauth-protected-resource"@);
            let hinted = login.next(EventView::Challenged { status: 401, header: Some(header) });
            let plain = login.next(EventView::Unchallenged);
            &&& metadata_hint(header) matches Some(hint) ==> {
                &&& hinted.1 == ActionView::Fetch(hint)
                &&& hinted.0.candidates.skip(1) == known
            }
            &&& known.len() > 0 ==> plain.1 == ActionView::Fetch(known[0])
            &&& known.len() == 0 ==> plain.1 is Fail
        }),
        login.phase == Phase::FindingResource && 0 <= login.at ==> {
            let next = login.next(EventView::Resource(None));
            &&& login.at + 1 < login.candidates.len() ==> next.1 == ActionView::Fetch(
                login.candidates[login.at + 1],
            )
            &&& login.at + 1 >= login.candidates.len() ==> next.1 is Fail
        },
        found.authorization_servers.len() > 0 ==> {
            let next = login.next(EventView::Resource(Some(found)));
            &&& next.0.issuer == found.authorization_servers[0]
            &&& next.0.protected == found
            &&& !(next.1 is Fail)
        },
        login.phase == Phase::FindingIssuer && 0 <= login.at ==> {
            let next = login.next(EventView::Metadata(None));
            &&& login.at + 1 < login.candidates.len() ==> next.1 == ActionView::Fetch(
                login.candidates[login.at + 1],
            )
            &&& login.at + 1 >= login.candidates.len() ==> next.1 is Bind
        },
{
    let known = well_known_at(login.url, "oauth-protected-resource"@);
    if let Some(hint) = metadata_hint(header) {
        assert((seq![hint] + known).skip(1) =~= known);
    }
}

/// What a login leaves behind is what it went through: the tokens that were issued, under their
/// issuer, and the client and the endpoints it used.
pub proof fn a_login_keeps_what_it_used(login: LoginView, reply: ReplyView)
    requires
        login.phase == Phase::Redeeming,
        issued(reply) is Ok,
    ensures
        ({
            let saved = login.next(EventView::Replied(reply));
            let kept = saved.0.next(EventView::Stored);
            let done = kept.0.next(EventView::Stored);
            &&& saved.1 is Save
            &&& Some(saved.1->Save_0.access_token) == reply.body.access_token
            &&& saved.1->Save_0.refresh_token == reply.body.refresh_token
            &&& saved.1->Save_0.issuer == Some(login.issuer)
            &&& kept.1 is Remember
            &&& kept.1->Remember_0.client_id == login.client_id
            &&& kept.1->Remember_0.token_endpoint == login.metadata.token_endpoint
            &&& kept.1->Remember_0.authorization_endpoint == login.metadata.authorization_endpoint
            &&& kept.1->Remember_0.registration_endpoint == login.metadata.registration_endpoint
            &&& done.1 is Succeed
        }),
{
}

/// A client that is kept is used again only at the endpoint it was registered for; where there is
/// none one is registered, if the server lets it, with the way back that was bound.
pub proof fn a_client_is_used_where_it_was_registered(login: LoginView, kept: RegistrationView)
    requires
        kept.token_endpoint != login.metadata.token_endpoint,
    ensures
        ({
            let again = login.next(EventView::Recalled(Some(kept)));
            let fresh = login.next(EventView::Recalled(None));
            &&& again == fresh
            &&& login.metadata.registration_endpoint matches Some(place) ==> {
                &&& fresh.1 is Register
                &&& fresh.1->Register_endpoint == place
                &&& fresh.1->Register_body == client_json(login.redirect_uri)
            }
            &&& login.metadata.registration_endpoint is None ==> fresh.1 is Fail
        }),
{
}

} // verus!
