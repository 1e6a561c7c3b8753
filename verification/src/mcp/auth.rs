//! The credential of a remote server.
//!
//! A server answers an unauthenticated request with `401` and a `WWW-Authenticate` header naming
//! where its metadata lives. From there it is ordinary OAuth 2.1 with three RFCs stacked on it:
//! protected-resource metadata (RFC 9728) says which authorization server guards the resource,
//! dynamic client registration (RFC 7591) obtains a `client_id`, and resource indicators
//! (RFC 8707) keep the issued token bound to the server it was minted for.

use vstd::prelude::*;
use crate::text;
use crate::text::{
    decimal_of, first_of, hex_digit, joined, opt, pairs, texts, trimmed, up_to, without_trailing,
};

verus! {

/// Refresh this many seconds before the token actually expires, so a request does not race the
/// clock it was checked against.
pub const REFRESH_MARGIN: i64 = 60;

/// Why signing in failed.
#[derive(Debug, PartialEq, Eq)]
pub enum AuthError {
    /// The server refused.
    Rejected(String),
    Other(String),
}

/// What an [`AuthError`] says.
pub enum AuthErrorView {
    Rejected(Seq<char>),
    Other(Seq<char>),
}

impl View for AuthError {
    type V = AuthErrorView;

    open spec fn view(&self) -> AuthErrorView {
        match self {
            AuthError::Rejected(t) => AuthErrorView::Rejected(t@),
            AuthError::Other(t) => AuthErrorView::Other(t@),
        }
    }
}

/// A set of tokens.
#[derive(Debug, PartialEq, Eq)]
pub struct AuthTokens {
    pub access_token: String,
    pub refresh_token: Option<String>,
    /// When the access token stops being good, in seconds since the epoch.
    pub expires_at: Option<i64>,
    pub issuer: Option<String>,
}

/// What some [`AuthTokens`] say.
pub struct TokensView {
    pub access_token: Seq<char>,
    pub refresh_token: Option<Seq<char>>,
    pub expires_at: Option<i64>,
    pub issuer: Option<Seq<char>>,
}

impl View for AuthTokens {
    type V = TokensView;

    open spec fn view(&self) -> TokensView {
        TokensView {
            access_token: self.access_token@,
            refresh_token: opt(self.refresh_token),
            expires_at: self.expires_at,
            issuer: opt(self.issuer),
        }
    }
}

impl AuthTokens {
    /// An access token and nothing else.
    pub fn bearer(token: &str) -> (r: AuthTokens)
        ensures
            r@ == (TokensView {
                access_token: token@,
                refresh_token: None,
                expires_at: None,
                issuer: None,
            }),
    {
        AuthTokens {
            access_token: text::copy(token),
            refresh_token: None,
            expires_at: None,
            issuer: None,
        }
    }
}

/// Whether some tokens are too close to their end to be used. An issuer that names no expiry is
/// taken at its word.
pub open spec fn is_expired(tokens: TokensView, now: i64) -> bool {
    match tokens.expires_at {
        Some(at) => at - REFRESH_MARGIN <= now,
        None => false,
    }
}

/// Whether some tokens are too close to their end to be used.
pub fn expired(tokens: &AuthTokens, now: i64) -> (r: bool)
    ensures
        r == is_expired(tokens@, now),
{
    match tokens.expires_at {
        Some(at) => (at as i128) - (REFRESH_MARGIN as i128) <= now as i128,
        None => false,
    }
}

/// A dynamic client registration, and where it is good for.
///
/// Stored with its endpoints so a refresh needs no discovery round trip, and so a registration
/// is discarded when the issuer moves, rather than being sent somewhere it means nothing.
#[derive(Debug, PartialEq, Eq)]
pub struct Registration {
    pub client_id: String,
    pub authorization_endpoint: String,
    pub token_endpoint: String,
    pub registration_endpoint: Option<String>,
}

/// What a [`Registration`] says.
pub struct RegistrationView {
    pub client_id: Seq<char>,
    pub authorization_endpoint: Seq<char>,
    pub token_endpoint: Seq<char>,
    pub registration_endpoint: Option<Seq<char>>,
}

impl View for Registration {
    type V = RegistrationView;

    open spec fn view(&self) -> RegistrationView {
        RegistrationView {
            client_id: self.client_id@,
            authorization_endpoint: self.authorization_endpoint@,
            token_endpoint: self.token_endpoint@,
            registration_endpoint: opt(self.registration_endpoint),
        }
    }
}

/// Protected-resource metadata: which authorization server guards this, and what to ask it for.
#[derive(Debug, PartialEq, Eq)]
pub struct Protected {
    pub authorization_servers: Vec<String>,
    /// The canonical identifier of the resource, which is what the token is bound to. Absent
    /// means the server URL itself.
    pub resource: Option<String>,
    pub scopes_supported: Vec<String>,
}

/// What some [`Protected`] metadata says.
pub struct ProtectedView {
    pub authorization_servers: Seq<Seq<char>>,
    pub resource: Option<Seq<char>>,
    pub scopes_supported: Seq<Seq<char>>,
}

impl View for Protected {
    type V = ProtectedView;

    open spec fn view(&self) -> ProtectedView {
        ProtectedView {
            authorization_servers: texts(self.authorization_servers@),
            resource: opt(self.resource),
            scopes_supported: texts(self.scopes_supported@),
        }
    }
}

impl ProtectedView {
    /// What to ask for, where the resource says.
    pub open spec fn scope(self) -> Option<Seq<char>> {
        if self.scopes_supported.len() > 0 {
            Some(joined(self.scopes_supported, " "@))
        } else {
            None
        }
    }
}

impl Protected {
    /// What to ask for, where the resource says.
    pub fn scope(&self) -> (r: Option<String>)
        ensures
            opt(r) == self@.scope(),
    {
        assert(texts(self.scopes_supported@).len() == self.scopes_supported.len());
        if self.scopes_supported.len() > 0 {
            Some(text::join(&self.scopes_supported, " "))
        } else {
            None
        }
    }
}

/// An authorization server's metadata (RFC 8414).
#[derive(Debug, PartialEq, Eq)]
pub struct ServerMetadata {
    pub authorization_endpoint: String,
    pub token_endpoint: String,
    pub registration_endpoint: Option<String>,
}

/// What some [`ServerMetadata`] says.
pub struct MetadataView {
    pub authorization_endpoint: Seq<char>,
    pub token_endpoint: Seq<char>,
    pub registration_endpoint: Option<Seq<char>>,
}

impl View for ServerMetadata {
    type V = MetadataView;

    open spec fn view(&self) -> MetadataView {
        MetadataView {
            authorization_endpoint: self.authorization_endpoint@,
            token_endpoint: self.token_endpoint@,
            registration_endpoint: opt(self.registration_endpoint),
        }
    }
}

/// The endpoints that every issuer conventionally serves.
pub open spec fn conventional(issuer: Seq<char>) -> MetadataView {
    let base = without_trailing(issuer, '/');
    MetadataView {
        authorization_endpoint: base + "/authorize"@,
        token_endpoint: base + "/token"@,
        registration_endpoint: Some(base + "/register"@),
    }
}

impl ServerMetadata {
    /// Whether there is anything to sign in with.
    pub fn is_usable(&self) -> (r: bool)
        ensures
            r == (self@.authorization_endpoint.len() > 0 && self@.token_endpoint.len() > 0),
    {
        self.authorization_endpoint.as_str().unicode_len() > 0
            && self.token_endpoint.as_str().unicode_len() > 0
    }

    /// The endpoints that every issuer conventionally serves. A server that publishes nothing is
    /// not necessarily broken, so these are tried rather than the login being refused.
    pub fn conventional(issuer: &str) -> (r: ServerMetadata)
        ensures
            r@ == conventional(issuer@),
    {
        let base = text::trim_end_matches(issuer, '/');
        ServerMetadata {
            authorization_endpoint: text::concat(base.as_str(), "/authorize"),
            token_endpoint: text::concat(base.as_str(), "/token"),
            registration_endpoint: Some(text::concat(base.as_str(), "/register")),
        }
    }
}

/// Where a challenge says the metadata is: the value of its `resource_metadata`, in quotes or up
/// to a comma.
pub open spec fn metadata_hint(header: Seq<char>) -> Option<Seq<char>> {
    match first_of(header, "resource_metadata="@) {
        None => None,
        Some(i) => {
            let rest = header.skip(i + "resource_metadata="@.len());
            let value = if text::has_prefix(rest, "\""@) {
                up_to(rest.skip(1), "\""@)
            } else {
                trimmed(up_to(rest, ","@))
            };
            if value.len() > 0 {
                Some(value)
            } else {
                None
            }
        },
    }
}

/// The `resource_metadata` a `401` pointed at, if it named one.
///
/// The header is `Bearer realm="…", resource_metadata="https://…"`. Only that one parameter is
/// read: everything else in an auth challenge describes how to present a token that nobody has
/// yet.
pub fn resource_metadata_hint(header: &str) -> (r: Option<String>)
    ensures
        opt(r) == metadata_hint(header@),
{
    let v = text::to_chars(header);
    let Some(i) = text::position(&v, "resource_metadata=") else {
        return None;
    };
    let skipped: usize = "resource_metadata=".unicode_len();
    let rest = text::from_chars(&v, i + skipped, v.len());
    proof {
        reveal_strlit("\"");
        assert(rest@ =~= header@.skip(i as int + "resource_metadata="@.len()));
    }
    let value = match text::strip_prefix(rest.as_str(), "\"") {
        Some(quoted) => text::before(quoted.as_str(), "\""),
        None => {
            let value = text::before(rest.as_str(), ",");
            text::trim(value.as_str())
        },
    };
    if value.as_str().unicode_len() > 0 {
        Some(value)
    } else {
        None
    }
}

/// What a URL is made of.
#[derive(Debug, PartialEq, Eq)]
pub struct UrlParts {
    pub scheme: String,
    pub host: Option<String>,
    pub port: Option<u16>,
    pub path: String,
}

/// What some [`UrlParts`] say.
pub struct UrlPartsView {
    pub scheme: Seq<char>,
    pub host: Option<Seq<char>>,
    pub port: Option<u16>,
    pub path: Seq<char>,
}

impl View for UrlParts {
    type V = UrlPartsView;

    open spec fn view(&self) -> UrlPartsView {
        UrlPartsView {
            scheme: self.scheme@,
            host: opt(self.host),
            port: self.port,
            path: self.path@,
        }
    }
}

/// The parts that may be missing.
pub open spec fn parts_view(parts: Option<UrlParts>) -> Option<UrlPartsView> {
    match parts {
        Some(parts) => Some(parts@),
        None => None,
    }
}

/// What a text is made of, where it is a URL.
pub uninterp spec fn url_parts(url: Seq<char>) -> Option<UrlPartsView>;

/// `url::Url::parse`, with the `scheme`, `host_str`, `port` and `path` of what it reads; nothing
/// where it reads no URL. All of it is a function of the text.
#[verifier::external_body]
fn parse_url(url: &str) -> (r: Option<UrlParts>)
    ensures
        parts_view(r) == url_parts(url@),
{
    let parsed = url::Url::parse(url).ok()?;
    Some(
        UrlParts {
            scheme: parsed.scheme().to_string(),
            host: parsed.host_str().map(|host| host.to_string()),
            port: parsed.port(),
            path: parsed.path().to_string(),
        },
    )
}

/// The well-known locations for a document about a URL that is made of these parts: with its path
/// behind first, because a host serving several resources tells them apart that way.
pub open spec fn locations(parts: Option<UrlPartsView>, document: Seq<char>) -> Seq<Seq<char>> {
    match parts {
        Some(UrlPartsView { scheme, host: Some(host), port, path }) => {
            let authority = scheme + "://"@ + host;
            let origin = match port {
                Some(port) => authority + ":"@ + decimal_of(port as nat),
                None => authority,
            };
            let bare = origin + "/.well-known/"@ + document;
            let path = without_trailing(path, '/');
            if path.len() > 0 {
                seq![bare + path, bare]
            } else {
                seq![bare]
            }
        },
        _ => Seq::empty(),
    }
}

/// The well-known locations for a document about a URL that is made of these parts.
pub fn locations_of(parts: Option<UrlParts>, document: &str) -> (r: Vec<String>)
    ensures
        texts(r@) == locations(parts_view(parts), document@),
{
    let mut candidates = text::no_texts();
    if let Some(parts) = parts {
        if let Some(host) = parts.host {
            let mut bare = text::concat3(parts.scheme.as_str(), "://", host.as_str());
            if let Some(port) = parts.port {
                let number = text::decimal(port as u64);
                bare.append(":");
                bare.append(number.as_str());
            }
            bare.append("/.well-known/");
            bare.append(document);
            let path = text::trim_end_matches(parts.path.as_str(), '/');
            if path.as_str().unicode_len() > 0 {
                let suffixed = text::concat(bare.as_str(), path.as_str());
                text::push_text(&mut candidates, suffixed.as_str());
            }
            text::push_text(&mut candidates, bare.as_str());
        }
    }
    assert(texts(candidates@) =~= locations(parts_view(parts), document@));
    candidates
}

/// The well-known locations for a document about a URL.
pub open spec fn well_known_at(url: Seq<char>, document: Seq<char>) -> Seq<Seq<char>> {
    locations(url_parts(url), document)
}

/// The well-known locations for `document` about `url`, RFC 8414 §3.1 order.
pub fn well_known(url: &str, document: &str) -> (r: Vec<String>)
    ensures
        texts(r@) == well_known_at(url@, document@),
{
    locations_of(parse_url(url), document)
}

/// What a character becomes in a file name.
pub open spec fn slug_char(c: char) -> char {
    if ('a' <= c && c <= 'z') || ('0' <= c && c <= '9') {
        c
    } else if 'A' <= c && c <= 'Z' {
        text::ascii_lower(c)
    } else {
        '-'
    }
}

/// A name with each character made fit for a file name, led by an `s` where it would not begin
/// with a letter or a digit.
pub open spec fn slugged(name: Seq<char>) -> Seq<char> {
    let slug = name.map_values(|c: char| slug_char(c));
    if slug.len() > 0 && slug[0] != '-' {
        slug
    } else {
        seq!['s'] + slug
    }
}

/// FNV-1a over some bytes.
pub open spec fn fnv(bytes: Seq<u8>) -> u64
    decreases bytes.len(),
{
    if bytes.len() == 0 {
        0xcbf2_9ce4_8422_2325
    } else {
        (fnv(bytes.drop_last()) ^ (bytes.last() as u64)).wrapping_mul(0x0000_0100_0000_01b3)
    }
}

/// The last `width` hexadecimal digits of a number.
pub open spec fn hex(n: int, width: nat) -> Seq<char>
    decreases width,
{
    if width == 0 {
        Seq::empty()
    } else {
        hex(n / 16, (width - 1) as nat).push(hex_digit(n % 16))
    }
}

/// Eight hexadecimal digits of FNV-1a.
pub open spec fn digest_of(value: Seq<char>) -> Seq<char> {
    hex(fnv(vstd::utf8::encode_utf8(value)) as int, 8)
}

/// The last eight hexadecimal digits of a number.
fn hex8(n: u64) -> (r: String)
    ensures
        r@ == hex(n as int, 8),
{
    let mut digits: Vec<char> = Vec::new();
    let mut rest: u64 = n;
    let mut k: usize = 0;
    assert(hex(n as int, 8) =~= hex(rest as int, 8) + digits@.reverse());
    while k < 8
        invariant
            k <= 8,
            digits.len() == k,
            hex(n as int, 8) == hex(rest as int, (8 - k) as nat) + digits@.reverse(),
        decreases 8 - k,
    {
        let ghost before = digits@;
        let ghost whole = rest;
        let d: u64 = rest % 16;
        let c: char = if d < 10 {
            (48 + d as u8) as char
        } else {
            (87 + d as u8) as char
        };
        digits.push(c);
        rest = rest / 16;
        k += 1;
        proof {
            assert(c == hex_digit(d as int));
            assert(digits@.reverse() =~= seq![c] + before.reverse());
            assert(hex(whole as int, (9 - k) as nat) + before.reverse() =~= hex(
                rest as int,
                (8 - k) as nat,
            ) + digits@.reverse());
        }
    }
    let mut r = String::new();
    let mut i: usize = 8;
    assert(r@ =~= digits@.reverse().take(0));
    while i > 0
        invariant
            i <= 8,
            digits.len() == 8,
            r@ == digits@.reverse().take(8 - i),
        decreases i,
    {
        i -= 1;
        r.push(digits[i]);
        assert(r@ =~= digits@.reverse().take(8 - i));
    }
    assert(digits@.reverse().take(8) =~= hex(n as int, 8));
    r
}

/// Eight hexadecimal characters of FNV-1a. This only has to keep two servers' files apart.
pub fn digest(value: &str) -> (r: String)
    ensures
        r@ == digest_of(value@),
{
    let bytes = value.as_bytes();
    let mut hash: u64 = 0xcbf2_9ce4_8422_2325;
    let mut i: usize = 0;
    assert(bytes@.take(0) =~= Seq::empty());
    while i < bytes.len()
        invariant
            i <= bytes.len(),
            hash == fnv(bytes@.take(i as int)),
        decreases bytes.len() - i,
    {
        assert(bytes@.take(i as int + 1).drop_last() =~= bytes@.take(i as int));
        hash = (hash ^ (bytes[i] as u64)).wrapping_mul(0x0000_0100_0000_01b3);
        i += 1;
    }
    assert(bytes@.take(i as int) =~= bytes@);
    hex8(hash)
}

/// The file name that a server's tokens are filed under.
pub open spec fn slug_of(name: Seq<char>, url: Seq<char>) -> Seq<char> {
    slugged(name) + "-"@ + digest_of(url)
}

/// The file name a server's tokens are filed under.
///
/// Derived from the name *and* the URL: two projects may each configure a `github` server
/// pointing somewhere different, and a shared file would hand one of them the other's token. It
/// has a short digest of the URL rather than the URL itself: a person reading their own directory
/// should not find a full endpoint spelled out in it.
pub fn vendor_slug(name: &str, url: &str) -> (r: String)
    ensures
        r@ == slug_of(name@, url@),
{
    let v = text::to_chars(name);
    let ghost whole = v@.map_values(|c: char| slug_char(c));
    let mut slug = String::new();
    let mut i: usize = 0;
    assert(slug@ =~= whole.take(0));
    while i < v.len()
        invariant
            i <= v.len(),
            whole == v@.map_values(|c: char| slug_char(c)),
            slug@ == whole.take(i as int),
        decreases v.len() - i,
    {
        let c = v[i];
        if ('a' <= c && c <= 'z') || ('0' <= c && c <= '9') {
            slug.push(c);
        } else if 'A' <= c && c <= 'Z' {
            slug.push(((c as u8) + 32u8) as char);
        } else {
            slug.push('-');
        }
        i += 1;
        assert(slug@ =~= whole.take(i as int));
    }
    assert(slug@ =~= whole);
    let starts_well = match slug.as_str().unicode_len() {
        0 => false,
        _ => slug.as_str().get_char(0) != '-',
    };
    let mut r = if starts_well {
        slug
    } else {
        text::concat("s", slug.as_str())
    };
    proof {
        reveal_strlit("s");
        assert("s"@ =~= seq!['s']);
        assert(r@ =~= slugged(name@));
    }
    let tail = digest(url);
    r.append("-");
    r.append(tail.as_str());
    r
}

/// Whether a character may stand in a file name.
pub open spec fn is_slug_char(c: char) -> bool {
    ('a' <= c && c <= 'z') || ('0' <= c && c <= '9') || c == '-'
}

/// Hexadecimal digits may stand in a file name.
proof fn lemma_hex(n: int, width: nat)
    requires
        0 <= n,
    ensures
        hex(n, width).len() == width,
        forall|i: int| 0 <= i < width ==> is_slug_char(#[trigger] hex(n, width)[i]),
    decreases width,
{
    if width > 0 {
        lemma_hex(n / 16, (width - 1) as nat);
        assert(is_slug_char(hex_digit(n % 16)));
    }
}

/// Whatever a server is called, its file name begins with a letter or a digit and holds only
/// small letters, digits and hyphens; and the eight last characters depend on the URL alone.
pub proof fn a_slug_is_a_file_name(name: Seq<char>, url: Seq<char>)
    ensures
        slug_of(name, url).len() >= 10,
        slug_of(name, url)[0] != '-',
        forall|i: int|
            0 <= i < slug_of(name, url).len() ==> is_slug_char(#[trigger] slug_of(name, url)[i]),
        slug_of(name, url).skip(slug_of(name, url).len() - 8) == digest_of(url),
{
    reveal_strlit("-");
    let hash = fnv(vstd::utf8::encode_utf8(url)) as int;
    lemma_hex(hash, 8);
    let slug = slug_of(name, url);
    let front = slugged(name);
    assert(slug.skip(slug.len() - 8) =~= digest_of(url));
    assert forall|i: int| 0 <= i < slug.len() implies is_slug_char(#[trigger] slug[i]) by {
        if i >= front.len() + 1 {
            assert(slug[i] == digest_of(url)[i - front.len() - 1]);
        } else if i == front.len() {
            assert(slug[i] == '-');
        } else {
            assert(slug[i] == front[i]);
        }
    }
}

/// What an OAuth endpoint answered with, as far as it is read.
#[derive(Debug, PartialEq, Eq)]
pub struct OAuthBody {
    pub client_id: Option<String>,
    pub access_token: Option<String>,
    pub refresh_token: Option<String>,
    pub expires_in: Option<i64>,
    pub error: Option<String>,
    pub error_description: Option<String>,
}

/// What an [`OAuthBody`] says.
pub struct BodyView {
    pub client_id: Option<Seq<char>>,
    pub access_token: Option<Seq<char>>,
    pub refresh_token: Option<Seq<char>>,
    pub expires_in: Option<i64>,
    pub error: Option<Seq<char>>,
    pub error_description: Option<Seq<char>>,
}

impl View for OAuthBody {
    type V = BodyView;

    open spec fn view(&self) -> BodyView {
        BodyView {
            client_id: opt(self.client_id),
            access_token: opt(self.access_token),
            refresh_token: opt(self.refresh_token),
            expires_in: self.expires_in,
            error: opt(self.error),
            error_description: opt(self.error_description),
        }
    }
}

/// A reply of an OAuth endpoint: its status, how the status is spelled, its body, and when it
/// came, in seconds since the epoch.
#[derive(Debug, PartialEq, Eq)]
pub struct Reply {
    pub status: u16,
    pub status_line: String,
    pub body: OAuthBody,
    pub now: i64,
}

/// What a [`Reply`] says.
pub struct ReplyView {
    pub status: u16,
    pub status_line: Seq<char>,
    pub body: BodyView,
    pub now: i64,
}

impl View for Reply {
    type V = ReplyView;

    open spec fn view(&self) -> ReplyView {
        ReplyView {
            status: self.status,
            status_line: self.status_line@,
            body: self.body@,
            now: self.now,
        }
    }
}

impl ReplyView {
    /// Whether the reply is a success.
    pub open spec fn succeeded(self) -> bool {
        200 <= self.status < 300
    }

    /// Whether the moment at which a token ends is one that a clock can show.
    pub open spec fn ends_in_time(self) -> bool {
        match self.body.expires_in {
            Some(seconds) => i64::MIN <= self.now + seconds <= i64::MAX,
            None => true,
        }
    }
}

/// The reason that an OAuth error body gives.
pub open spec fn described(body: BodyView) -> Seq<char> {
    match (body.error, body.error_description) {
        (_, Some(description)) => description,
        (Some(error), None) => error,
        (None, None) => "no reason given"@,
    }
}

/// An OAuth error body, as something worth printing.
pub fn describe(body: &OAuthBody) -> (r: String)
    ensures
        r@ == described(body@),
{
    match (&body.error, &body.error_description) {
        (_, Some(description)) => description.clone(),
        (Some(error), None) => error.clone(),
        (None, None) => text::copy("no reason given"),
    }
}

/// The tokens that a token endpoint's reply holds.
pub open spec fn issued(reply: ReplyView) -> Result<TokensView, AuthErrorView> {
    if !reply.succeeded() {
        Err(
            AuthErrorView::Rejected(
                "the token endpoint refused ("@ + reply.status_line + "): "@ + described(
                    reply.body,
                ),
            ),
        )
    } else {
        match reply.body.access_token {
            None => Err(AuthErrorView::Other("the token response carried no access token"@)),
            Some(access_token) => Ok(
                TokensView {
                    access_token,
                    refresh_token: reply.body.refresh_token,
                    expires_at: match reply.body.expires_in {
                        Some(seconds) => Some((reply.now + seconds) as i64),
                        None => None,
                    },
                    issuer: None,
                },
            ),
        }
    }
}

/// Reads the token set out of a token endpoint's reply.
pub fn token_set(reply: &Reply) -> (r: Result<AuthTokens, AuthError>)
    requires
        reply@.ends_in_time(),
    ensures
        match issued(reply@) {
            Ok(tokens) => r is Ok && r->Ok_0@ == tokens,
            Err(error) => r is Err && r->Err_0@ == error,
        },
{
    if !(200 <= reply.status && reply.status < 300) {
        let reason = describe(&reply.body);
        let mut message = text::concat3(
            "the token endpoint refused (",
            reply.status_line.as_str(),
            "): ",
        );
        message.append(reason.as_str());
        return Err(AuthError::Rejected(message));
    }
    match &reply.body.access_token {
        None => Err(AuthError::Other(text::copy("the token response carried no access token"))),
        Some(access_token) => Ok(
            AuthTokens {
                access_token: access_token.clone(),
                refresh_token: text::copy_opt(&reply.body.refresh_token),
                expires_at: match reply.body.expires_in {
                    Some(seconds) => Some(reply.now + seconds),
                    None => None,
                },
                issuer: None,
            },
        ),
    }
}

/// What to do for a usable access token.
#[derive(Debug, PartialEq, Eq)]
pub enum Bearer {
    /// Use this one.
    Token(String),
    /// Spend the refresh token first.
    Refresh,
    /// Nobody is signed in.
    SignIn,
}

/// What a [`Bearer`] says.
pub enum BearerView {
    Token(Seq<char>),
    Refresh,
    SignIn,
}

impl View for Bearer {
    type V = BearerView;

    open spec fn view(&self) -> BearerView {
        match self {
            Bearer::Token(token) => BearerView::Token(token@),
            Bearer::Refresh => BearerView::Refresh,
            Bearer::SignIn => BearerView::SignIn,
        }
    }
}

/// What spending a refresh token takes.
#[derive(Debug, PartialEq, Eq)]
pub enum Refresh {
    /// There is nothing to spend.
    Nothing,
    /// The stored token is good after all: somebody else refreshed it.
    Token(String),
    /// Post this form to this endpoint.
    Post { endpoint: String, form: Vec<(String, String)> },
}

/// What a [`Refresh`] says.
pub enum RefreshView {
    Nothing,
    Token(Seq<char>),
    Post { endpoint: Seq<char>, form: Seq<(Seq<char>, Seq<char>)> },
}

impl View for Refresh {
    type V = RefreshView;

    open spec fn view(&self) -> RefreshView {
        match self {
            Refresh::Nothing => RefreshView::Nothing,
            Refresh::Token(token) => RefreshView::Token(token@),
            Refresh::Post { endpoint, form } => RefreshView::Post {
                endpoint: endpoint@,
                form: pairs(form@),
            },
        }
    }
}

/// Some tokens that may be missing.
pub open spec fn tokens_view(tokens: Option<AuthTokens>) -> Option<TokensView> {
    match tokens {
        Some(tokens) => Some(tokens@),
        None => None,
    }
}

/// A registration that may be missing.
pub open spec fn registration_view(r: Option<Registration>) -> Option<RegistrationView> {
    match r {
        Some(r) => Some(r@),
        None => None,
    }
}

/// The form that spends a refresh token.
pub open spec fn refresh_form(
    refresh_token: Seq<char>,
    client_id: Seq<char>,
    url: Seq<char>,
) -> Seq<(Seq<char>, Seq<char>)> {
    seq![
        ("grant_type"@, "refresh_token"@),
        ("refresh_token"@, refresh_token),
        ("client_id"@, client_id),
        ("resource"@, url),
    ]
}

/// What spending the refresh token of what is stored takes. A stored token that is still good is
/// handed out instead, unless it is the one that the server just refused: a server may decide that
/// a token is done before its stated end.
pub open spec fn refresh_plan(
    refused: Option<Seq<char>>,
    held: Option<TokensView>,
    registration: Option<RegistrationView>,
    url: Seq<char>,
    now: i64,
) -> RefreshView {
    match held {
        None => RefreshView::Nothing,
        Some(tokens) => if !is_expired(tokens, now) && refused != Some(tokens.access_token) {
            RefreshView::Token(tokens.access_token)
        } else {
            match (tokens.refresh_token, registration) {
                (Some(refresh_token), Some(client)) => RefreshView::Post {
                    endpoint: client.token_endpoint,
                    form: refresh_form(refresh_token, client.client_id, url),
                },
                _ => RefreshView::Nothing,
            }
        },
    }
}

/// The tokens after a refresh. An issuer that rotates refresh tokens returns a new one; one that
/// does not returns nothing, and the old one stays valid.
pub open spec fn renewed(held: TokensView, fresh: TokensView) -> TokensView {
    TokensView {
        refresh_token: if fresh.refresh_token is Some {
            fresh.refresh_token
        } else {
            held.refresh_token
        },
        issuer: held.issuer,
        ..fresh
    }
}

/// The tokens after a refresh.
pub fn renew(held: AuthTokens, fresh: AuthTokens) -> (r: AuthTokens)
    ensures
        r@ == renewed(held@, fresh@),
{
    AuthTokens {
        access_token: fresh.access_token,
        refresh_token: if fresh.refresh_token.is_some() {
            fresh.refresh_token
        } else {
            held.refresh_token
        },
        expires_at: fresh.expires_at,
        issuer: held.issuer,
    }
}

/// One remote server's credential.
#[derive(Debug, PartialEq, Eq)]
pub struct ServerAuth {
    name: String,
    url: String,
    vendor: String,
    cached: Option<AuthTokens>,
}

/// What a [`ServerAuth`] knows.
pub struct ServerAuthView {
    pub name: Seq<char>,
    pub url: Seq<char>,
    pub cached: Option<TokensView>,
}

impl View for ServerAuth {
    type V = ServerAuthView;

    closed spec fn view(&self) -> ServerAuthView {
        ServerAuthView { name: self.name@, url: self.url@, cached: tokens_view(self.cached) }
    }
}

impl ServerAuth {
    #[verifier::type_invariant]
    closed spec fn filed(self) -> bool {
        self.vendor@ == slug_of(self.name@, self.url@)
    }

    /// Prepares to authenticate `name` at `url`. Nothing is read here: a server nobody has signed
    /// in to must cost no file access.
    pub fn new(name: &str, url: &str) -> (r: ServerAuth)
        ensures
            r@ == (ServerAuthView { name: name@, url: url@, cached: None }),
    {
        ServerAuth {
            name: text::copy(name),
            url: text::copy(url),
            vendor: vendor_slug(name, url),
            cached: None,
        }
    }

    /// The server's name, for messages a person has to act on.
    pub fn name(&self) -> (r: &str)
        ensures
            r@ == self@.name,
    {
        self.name.as_str()
    }

    /// The server as configured, which is both what is authenticated against and the key
    /// everything is filed under.
    pub fn url(&self) -> (r: &str)
        ensures
            r@ == self@.url,
    {
        self.url.as_str()
    }

    /// The file name the tokens are filed under.
    pub fn vendor(&self) -> (r: &str)
        ensures
            r@ == slug_of(self@.name, self@.url),
    {
        proof {
            use_type_invariant(self);
        }
        self.vendor.as_str()
    }

    /// Holds tokens, avoiding a file read per request.
    pub fn cache(&mut self, tokens: AuthTokens)
        ensures
            final(self)@ == (ServerAuthView { cached: Some(tokens@), ..old(self)@ }),
    {
        proof {
            use_type_invariant(&*self);
        }
        self.cached = Some(tokens);
    }

    /// Forgets the tokens held.
    pub fn forget(&mut self)
        ensures
            final(self)@ == (ServerAuthView { cached: None, ..old(self)@ }),
    {
        proof {
            use_type_invariant(&*self);
        }
        self.cached = None;
    }

    /// The access token held, if it is still good.
    pub fn fresh_cached(&self, now: i64) -> (r: Option<String>)
        ensures
            opt(r) == match self@.cached {
                Some(tokens) => if is_expired(tokens, now) {
                    None
                } else {
                    Some(tokens.access_token)
                },
                None => None,
            },
    {
        match &self.cached {
            Some(tokens) => if expired(tokens, now) {
                None
            } else {
                Some(tokens.access_token.clone())
            },
            None => None,
        }
    }

    /// A usable access token from what is stored, which is then held.
    ///
    /// `SignIn` means just that, not "something went wrong": a server that needs no
    /// authentication and one that has never been signed in to both arrive here, and neither is
    /// an error to report from inside a turn.
    pub fn bearer(&mut self, stored: Option<AuthTokens>, now: i64) -> (r: Bearer)
        ensures
            match tokens_view(stored) {
                None => r@ == BearerView::SignIn && final(self)@ == old(self)@,
                Some(tokens) => if is_expired(tokens, now) {
                    r@ == BearerView::Refresh && final(self)@ == old(self)@
                } else {
                    r@ == BearerView::Token(tokens.access_token) && final(self)@ == (
                    ServerAuthView { cached: Some(tokens), ..old(self)@ })
                },
            },
    {
        match stored {
            None => Bearer::SignIn,
            Some(tokens) => if expired(&tokens, now) {
                Bearer::Refresh
            } else {
                let token = tokens.access_token.clone();
                self.cache(tokens);
                Bearer::Token(token)
            },
        }
    }

    /// What spending the refresh token takes, given the token that the server refused, if one was,
    /// and what is stored while it is locked. Another process may have refreshed in the meantime,
    /// and spending a rotated refresh token fails.
    pub fn refresh(
        &self,
        refused: Option<&str>,
        held: &Option<AuthTokens>,
        registration: &Option<Registration>,
        now: i64,
    ) -> (r: Refresh)
        ensures
            r@ == refresh_plan(
                match refused {
                    Some(token) => Some(token@),
                    None => None,
                },
                tokens_view(*held),
                registration_view(*registration),
                self@.url,
                now,
            ),
    {
        let Some(tokens) = held else {
            return Refresh::Nothing;
        };
        let is_refused = match refused {
            Some(token) => text::eq(token, tokens.access_token.as_str()),
            None => false,
        };
        if !expired(tokens, now) && !is_refused {
            return Refresh::Token(tokens.access_token.clone());
        }
        match (&tokens.refresh_token, registration) {
            (Some(refresh_token), Some(client)) => {
                let mut form = text::no_pairs();
                text::push_pair(&mut form, "grant_type", "refresh_token");
                text::push_pair(&mut form, "refresh_token", refresh_token.as_str());
                text::push_pair(&mut form, "client_id", client.client_id.as_str());
                text::push_pair(&mut form, "resource", self.url.as_str());
                assert(pairs(form@) =~= refresh_form(
                    refresh_token@,
                    client.client_id@,
                    self@.url,
                ));
                Refresh::Post { endpoint: client.token_endpoint.clone(), form }
            },
            _ => Refresh::Nothing,
        }
    }
}

/// A token that is handed out is good for longer than the margin, and is not the one that was just
/// refused.
pub proof fn a_plan_hands_out_no_stale_token(
    refused: Option<Seq<char>>,
    held: Option<TokensView>,
    registration: Option<RegistrationView>,
    url: Seq<char>,
    now: i64,
)
    requires
        refresh_plan(refused, held, registration, url, now) is Token,
    ensures
        held is Some,
        refused != Some(held->0.access_token),
        refresh_plan(refused, held, registration, url, now) == RefreshView::Token(
            held->0.access_token,
        ),
        held->0.expires_at is Some ==> now < held->0.expires_at->0 - REFRESH_MARGIN,
{
}

/// A refresh never loses the means to refresh again: an issuer that returns no new refresh token
/// leaves the old one in force.
pub proof fn a_refresh_can_be_repeated(held: TokensView, fresh: TokensView)
    requires
        held.refresh_token is Some,
    ensures
        renewed(held, fresh).refresh_token is Some,
        renewed(held, fresh).access_token == fresh.access_token,
        renewed(held, fresh).issuer == held.issuer,
{
}

/// Tokens are issued just where the endpoint agreed and sent one: they are what it sent, and end when
/// it said. A refusal is told with the endpoint's reason, the longer one where it gave two.
pub proof fn tokens_are_what_was_sent(reply: ReplyView)
    requires
        reply.ends_in_time(),
    ensures
        issued(reply) is Ok <==> 200 <= reply.status <= 299 && reply.body.access_token is Some,
        issued(reply) matches Ok(tokens) ==> {
            &&& Some(tokens.access_token) == reply.body.access_token
            &&& tokens.refresh_token == reply.body.refresh_token
            &&& reply.body.expires_in is None ==> tokens.expires_at is None
            &&& reply.body.expires_in matches Some(seconds) ==> tokens.expires_at is Some
                && tokens.expires_at->0 == reply.now + seconds
        },
        issued(reply) matches Err(AuthErrorView::Rejected(_)) <==> !(200 <= reply.status <= 299),
        reply.body.error_description matches Some(reason) ==> described(reply.body) == reason,
        reply.body.error_description is None && reply.body.error is Some ==> described(reply.body)
            == reply.body.error->0,
{
}

/// A token is renewed with the refresh token that is held, at the endpoint and for the client that
/// are registered; with no means to renew one nothing is done.
pub proof fn a_refresh_is_asked_for_where_it_can_be(
    refused: Option<Seq<char>>,
    held: TokensView,
    client: RegistrationView,
    url: Seq<char>,
    now: i64,
)
    ensures
        ({
            let plan = refresh_plan(refused, Some(held), Some(client), url, now);
            let good = (held.expires_at is None || held.expires_at->0 > now + REFRESH_MARGIN)
                && refused != Some(held.access_token);
            &&& good ==> plan == RefreshView::Token(held.access_token)
            &&& !good && held.refresh_token is None ==> plan is Nothing
            &&& !good && held.refresh_token is Some ==> {
                &&& plan is Post
                &&& plan->endpoint == client.token_endpoint
                &&& plan->form.len() == 4
                &&& plan->form[0] == ("grant_type"@, "refresh_token"@)
                &&& plan->form[1] == ("refresh_token"@, held.refresh_token->0)
                &&& plan->form[2] == ("client_id"@, client.client_id)
                &&& plan->form[3] == ("resource"@, url)
            }
        }),
        refresh_plan(refused, None, Some(client), url, now) is Nothing,
{
}

/// The location that a challenge names is read from it, in quotes or up to a comma, wherever it stands.
pub proof fn a_hint_reads_back(before: Seq<char>, url: Seq<char>, behind: Seq<char>)
    requires
        url.len() > 0,
        !url.contains('"'),
        !text::occurs(before + "resource_metadata="@.drop_last(), "resource_metadata="@),
    ensures
        metadata_hint(before + "resource_metadata="@ + seq!['"'] + url + seq!['"'] + behind) == Some(
            url,
        ),
{
    reveal_strlit("resource_metadata=");
    reveal_strlit("\"");
    let key = "resource_metadata="@;
    let n = before.len() as int;
    let m = key.len() as int;
    let header = before + key + seq!['"'] + url + seq!['"'] + behind;
    text::lemma_first_from(header, key, 0);
    assert(header.subrange(n, n + m) =~= key);
    assert(text::occurs_at(header, key, n));
    let i = first_of(header, key)->0;
    if i < n {
        let start = before + key.drop_last();
        assert(header.subrange(i, i + m) =~= start.subrange(i, i + m));
        assert(text::occurs_at(start, key, i));
    }
    let rest = header.skip(n + m);
    assert("\""@ =~= seq!['"']);
    assert(rest.subrange(0, 1) =~= "\""@);
    let value = rest.skip(1);
    let k = url.len() as int;
    text::lemma_first_from(value, "\""@, 0);
    assert(value.subrange(k, k + 1) =~= "\""@);
    assert(text::occurs_at(value, "\""@, k));
    let j = first_of(value, "\""@)->0;
    assert(value.subrange(j, j + 1)[0] == value[j]);
    if j < k {
        assert(url[j] == '"');
    }
    assert(value.take(k) =~= url);
}

/// A document is looked for on the server of its address, below its path first and then at the root;
/// an address without a host has no place for it.
pub proof fn a_document_is_looked_for_on_its_server(parts: UrlPartsView, document: Seq<char>)
    ensures
        parts.host is None ==> locations(Some(parts), document).len() == 0,
        locations(None, document).len() == 0,
        parts.host is Some ==> {
            let origin = parts.scheme + "://"@ + parts.host->0 + (match parts.port {
                Some(port) => ":"@ + decimal_of(port as nat),
                None => Seq::empty(),
            });
            let found = locations(Some(parts), document);
            let path = without_trailing(parts.path, '/');
            &&& found.len() == (if path.len() > 0 {
                2int
            } else {
                1
            })
            &&& found.last() == origin + "/.well-known/"@ + document
            &&& path.len() > 0 ==> found[0] == origin + "/.well-known/"@ + document + path
        },
{
    if parts.host is Some {
        let authority = parts.scheme + "://"@ + parts.host->0;
        match parts.port {
            Some(port) => {
                assert(authority + (":"@ + decimal_of(port as nat)) =~= authority + ":"@
                    + decimal_of(port as nat));
            },
            None => {
                assert(authority + Seq::<char>::empty() =~= authority);
            },
        }
    }
}

} // verus!
