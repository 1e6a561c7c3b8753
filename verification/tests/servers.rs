//! Signing in to servers, and talking to them.

use keke::mcp::auth::{
    describe, digest, expired, locations_of, renew, resource_metadata_hint, token_set,
    vendor_slug, well_known, AuthError, AuthTokens, Bearer, OAuthBody, Protected, Refresh,
    Registration, Reply, ServerAuth, ServerMetadata, UrlParts,
};
use keke::mcp::http::{
    absolute, check_body, find_answer, is_event_stream, notification, routed, sign_in_required,
    take_events, AnswerReader, Event, HttpConnection, Naming, Router, Routed, RpcError, Verdict,
};
use keke::mcp::login::{self, Action, Login, Phase};
use keke::mcp::tool::{
    discover, CallResult, Listing, McpOptions, McpTool, McpToolOutput, PluginTimeouts, RemoteTool,
};
use keke::oauth::{random_token, Pkce};
use keke::protocol::{ContentBlock, Json};
use keke::tool::{ToolError, ToolKind};
use keke::wire::spell;

use base64::Engine as _;
use sha2::Digest as _;

#[test]
fn the_challenge_names_where_the_metadata_is() {
    assert_eq!(
        resource_metadata_hint(
            r#"Bearer realm="x", resource_metadata="https://mcp.test/.well-known/oauth-protected-resource""#
        )
        .as_deref(),
        Some("https://mcp.test/.well-known/oauth-protected-resource")
    );
    assert_eq!(
        resource_metadata_hint("Bearer resource_metadata=https://mcp.test/m, realm=x").as_deref(),
        Some("https://mcp.test/m")
    );
    assert_eq!(resource_metadata_hint("Bearer realm=\"x\""), None);
    assert_eq!(resource_metadata_hint("Bearer resource_metadata=\"\""), None);
}

#[test]
fn the_path_suffixed_well_known_is_tried_first() {
    assert_eq!(
        well_known("https://mcp.vercel.com/mcp", "oauth-protected-resource"),
        vec![
            "https://mcp.vercel.com/.well-known/oauth-protected-resource/mcp",
            "https://mcp.vercel.com/.well-known/oauth-protected-resource",
        ]
    );
    assert_eq!(
        well_known("https://mcp.vercel.com", "oauth-protected-resource"),
        vec!["https://mcp.vercel.com/.well-known/oauth-protected-resource"]
    );
}

#[test]
fn locations_keep_the_port_and_need_a_host() {
    assert_eq!(
        well_known("http://localhost:8080/a/", "d"),
        vec!["http://localhost:8080/.well-known/d/a", "http://localhost:8080/.well-known/d"]
    );
    assert!(well_known("not a url", "d").is_empty());
    assert!(well_known("mailto:a@b", "d").is_empty());
    let parts = UrlParts {
        scheme: "https".to_string(),
        host: Some("h".to_string()),
        port: Some(1),
        path: "/".to_string(),
    };
    assert_eq!(locations_of(Some(parts), "d"), vec!["https://h:1/.well-known/d"]);
}

fn is_a_file_name(slug: &str) -> bool {
    slug.starts_with(|c: char| c.is_ascii_lowercase() || c.is_ascii_digit())
        && slug.chars().all(|c| c.is_ascii_lowercase() || c.is_ascii_digit() || c == '-')
}

#[test]
fn two_servers_of_the_same_name_do_not_share_a_credential_file() {
    let one = vendor_slug("github", "https://a.test/mcp");
    let two = vendor_slug("github", "https://b.test/mcp");
    assert_ne!(one, two);
    assert!(one.starts_with("github-"), "{one}");
    assert!(is_a_file_name(&one), "{one}");
    assert!(is_a_file_name(&vendor_slug("Weird Name!", "https://c.test")));
    assert!(vendor_slug("!x", "u").starts_with("s-x-"));
}

#[test]
fn a_digest_is_the_low_half_of_the_hash() {
    let expected = |value: &str| {
        let mut hash: u64 = 0xcbf2_9ce4_8422_2325;
        for byte in value.as_bytes() {
            hash ^= u64::from(*byte);
            hash = hash.wrapping_mul(0x0000_0100_0000_01b3);
        }
        format!("{:08x}", hash as u32)
    };
    for value in ["", "a", "https://a.test/mcp", "日本"] {
        assert_eq!(digest(value), expected(value), "{value:?}");
    }
}

fn tokens(expires_at: Option<i64>) -> AuthTokens {
    AuthTokens {
        access_token: "a".to_string(),
        refresh_token: Some("r".to_string()),
        expires_at,
        issuer: Some("i".to_string()),
    }
}

#[test]
fn a_token_is_refreshed_before_it_actually_expires() {
    let now = 1_000;
    assert!(expired(&tokens(Some(now + 5)), now), "a token about to expire is not usable");
    assert!(!expired(&tokens(Some(now + 600)), now));
    assert!(!expired(&AuthTokens::bearer("a"), now));
    assert!(expired(&tokens(Some(i64::MIN)), now));
}

fn registration() -> Registration {
    Registration {
        client_id: "c".to_string(),
        authorization_endpoint: "https://i/authorize".to_string(),
        token_endpoint: "https://i/token".to_string(),
        registration_endpoint: None,
    }
}

#[test]
fn a_stored_token_is_used_or_refreshed() {
    let mut auth = ServerAuth::new("vercel", "https://m.test");
    assert_eq!(auth.fresh_cached(0), None);
    assert_eq!(auth.bearer(None, 0), Bearer::SignIn);
    assert_eq!(auth.bearer(Some(tokens(Some(10))), 0), Bearer::Refresh);
    assert_eq!(auth.bearer(Some(tokens(Some(1_000))), 0), Bearer::Token("a".to_string()));
    assert_eq!(auth.fresh_cached(0).as_deref(), Some("a"));
    assert_eq!(auth.fresh_cached(990), None);
    auth.forget();
    assert_eq!(auth.fresh_cached(0), None);
    assert_eq!(auth.vendor(), vendor_slug("vercel", "https://m.test"));
}

#[test]
fn spending_a_refresh_token_takes_a_registration() {
    let auth = ServerAuth::new("vercel", "https://m.test");
    assert_eq!(auth.refresh(None, &None, &Some(registration()), 0), Refresh::Nothing);
    assert_eq!(auth.refresh(None, &Some(tokens(Some(0))), &None, 0), Refresh::Nothing);
    assert_eq!(
        auth.refresh(None, &Some(tokens(None)), &Some(registration()), 0),
        Refresh::Token("a".to_string())
    );
    let Refresh::Post { endpoint, form } =
        auth.refresh(None, &Some(tokens(Some(0))), &Some(registration()), 0)
    else {
        panic!("a form to post");
    };
    assert_eq!(endpoint, "https://i/token");
    let pairs: Vec<(&str, &str)> =
        form.iter().map(|(key, value)| (key.as_str(), value.as_str())).collect();
    assert_eq!(
        pairs,
        vec![
            ("grant_type", "refresh_token"),
            ("refresh_token", "r"),
            ("client_id", "c"),
            ("resource", "https://m.test"),
        ]
    );
    let kept = renew(tokens(Some(0)), AuthTokens::bearer("new"));
    assert_eq!(kept.access_token, "new");
    assert_eq!(kept.refresh_token.as_deref(), Some("r"));
    assert_eq!(kept.issuer.as_deref(), Some("i"));
}

fn body() -> OAuthBody {
    OAuthBody {
        client_id: None,
        access_token: None,
        refresh_token: None,
        expires_in: None,
        error: None,
        error_description: None,
    }
}

fn reply(status: u16, status_line: &str, body: OAuthBody) -> Reply {
    Reply { status, status_line: status_line.to_string(), body, now: 100 }
}

#[test]
fn a_token_endpoint_is_read() {
    let granted = OAuthBody {
        access_token: Some("t".to_string()),
        expires_in: Some(60),
        ..body()
    };
    let set = token_set(&reply(200, "200 OK", granted)).expect("issued");
    assert_eq!(set.access_token, "t");
    assert_eq!(set.expires_at, Some(160));
    assert_eq!(
        token_set(&reply(200, "200 OK", body())).expect_err("no token"),
        AuthError::Other("the token response carried no access token".to_string())
    );
    let refused = OAuthBody { error: Some("invalid_grant".to_string()), ..body() };
    assert_eq!(describe(&body()), "no reason given");
    assert_eq!(
        token_set(&reply(400, "400 Bad Request", refused)).expect_err("refused"),
        AuthError::Rejected(
            "the token endpoint refused (400 Bad Request): invalid_grant".to_string()
        )
    );
}

fn protected() -> Protected {
    Protected {
        authorization_servers: vec!["https://issuer.test/".to_string()],
        resource: None,
        scopes_supported: vec!["read".to_string(), "write".to_string()],
    }
}

fn started() -> Login {
    Login::start(
        "vercel",
        "https://mcp.test/mcp",
        Pkce::from_verifier("verifier".to_string()),
        "st".to_string(),
    )
}

fn at_binding() -> Login {
    let (login, action) = started().next(login::Event::Unchallenged);
    assert_eq!(
        action,
        Action::Fetch(
            "https://mcp.test/.well-known/oauth-protected-resource/mcp".to_string()
        )
    );
    let (login, action) = login.next(login::Event::Resource(Some(protected())));
    assert!(matches!(action, Action::Fetch(_)), "{action:?}");
    let (mut login, mut action) = login.next(login::Event::Metadata(None));
    while matches!(action, Action::Fetch(_)) {
        let (next, then) = login.next(login::Event::Metadata(None));
        login = next;
        action = then;
    }
    assert_eq!(action, Action::Bind);
    login
}

#[test]
fn a_login_runs_to_its_end() {
    let (login, action) =
        at_binding().next(login::Event::Bound("http://127.0.0.1:9/callback".to_string()));
    assert_eq!(action, Action::Recall);
    let (login, action) = login.next(login::Event::Recalled(None));
    let Action::Register { endpoint, body: sent } = action else {
        panic!("a registration");
    };
    assert_eq!(endpoint, "https://issuer.test/register");
    assert!(spell(&sent).contains("\"redirect_uris\":[\"http://127.0.0.1:9/callback\"]"));
    let answered = OAuthBody { client_id: Some("cid".to_string()), ..body() };
    let (login, action) = login.next(login::Event::Replied(reply(201, "201 Created", answered)));
    let Action::Authorize { url, notice, state } = action else {
        panic!("the browser");
    };
    assert_eq!(state, "st");
    assert_eq!(notice, "waiting for the browser to authorize `vercel`");
    let challenge = base64::engine::general_purpose::URL_SAFE_NO_PAD
        .encode(sha2::Sha256::digest("verifier".as_bytes()));
    assert_eq!(
        url,
        format!(
            "https://issuer.test/authorize?response_type=code&client_id=cid&redirect_uri=http%3A%2F%2F127.0.0.1%3A9%2Fcallback&state=st&code_challenge={challenge}&code_challenge_method=S256&resource=https%3A%2F%2Fmcp.test%2Fmcp&scope=read+write"
        )
    );
    let (login, action) = login.next(login::Event::Code("the-code".to_string()));
    let Action::Redeem { endpoint, form } = action else {
        panic!("the code is redeemed");
    };
    assert_eq!(endpoint, "https://issuer.test/token");
    assert!(form.contains(&("code_verifier".to_string(), "verifier".to_string())));
    assert!(form.contains(&("code".to_string(), "the-code".to_string())));
    let granted = OAuthBody { access_token: Some("t".to_string()), ..body() };
    let (login, action) = login.next(login::Event::Replied(reply(200, "200 OK", granted)));
    let Action::Save(saved) = action else {
        panic!("tokens to save");
    };
    assert_eq!(saved.issuer.as_deref(), Some("https://issuer.test/"));
    let (login, action) = login.next(login::Event::Stored);
    assert!(
        matches!(&action, Action::Remember(kept) if kept.client_id == "cid"),
        "{action:?}"
    );
    let (login, action) = login.next(login::Event::Stored);
    assert_eq!(action, Action::Succeed);
    assert_eq!(login.phase(), Phase::Finished);
}

#[test]
fn a_kept_registration_is_reused_where_it_is_good() {
    let bound = || at_binding().next(login::Event::Bound("http://l/callback".to_string())).0;
    let good = Registration {
        token_endpoint: "https://issuer.test/token".to_string(),
        ..registration()
    };
    let (_, action) = bound().next(login::Event::Recalled(Some(good)));
    assert!(
        matches!(&action, Action::Authorize { url, .. } if url.contains("client_id=c&")),
        "{action:?}"
    );
    let (_, action) = bound().next(login::Event::Recalled(Some(registration())));
    assert!(matches!(action, Action::Register { .. }), "{action:?}");
}

#[test]
fn a_challenge_is_followed_before_the_well_known_places() {
    let header = "Bearer resource_metadata=\"https://m.test/meta\"".to_string();
    let (_, action) =
        started().next(login::Event::Challenged { status: 401, header: Some(header.clone()) });
    assert_eq!(action, Action::Fetch("https://m.test/meta".to_string()));
    let (_, action) =
        started().next(login::Event::Challenged { status: 200, header: Some(header) });
    assert!(matches!(&action, Action::Fetch(url) if url.contains(".well-known")), "{action:?}");
}

#[test]
fn a_server_without_metadata_is_named() {
    let (login, _) = started().next(login::Event::Unchallenged);
    let (login, action) = login.next(login::Event::Resource(None));
    assert!(matches!(action, Action::Fetch(_)), "{action:?}");
    let empty = Protected { authorization_servers: Vec::new(), ..protected() };
    let (login, action) = login.next(login::Event::Resource(Some(empty)));
    assert_eq!(
        action,
        Action::Fail(AuthError::Other(
            "`vercel` published no OAuth metadata at https://mcp.test/.well-known/oauth-protected-resource/mcp or https://mcp.test/.well-known/oauth-protected-resource, so keke cannot tell where to sign in".to_string()
        ))
    );
    assert_eq!(login.phase(), Phase::Finished);
}

fn published(registration_endpoint: Option<&str>, authorize: &str) -> Login {
    let (login, _) = started().next(login::Event::Unchallenged);
    let (login, _) = login.next(login::Event::Resource(Some(protected())));
    let metadata = ServerMetadata {
        authorization_endpoint: authorize.to_string(),
        token_endpoint: "https://i/t".to_string(),
        registration_endpoint: registration_endpoint.map(str::to_string),
    };
    let (login, action) = login.next(login::Event::Metadata(Some(metadata)));
    assert_eq!(action, Action::Bind);
    login.next(login::Event::Bound("http://l/callback".to_string())).0
}

#[test]
fn each_way_a_login_fails_is_told_apart() {
    let failed = |(login, action): (Login, Action)| {
        assert_eq!(login.phase(), Phase::Finished);
        match action {
            Action::Fail(error) => error,
            other => panic!("a failure, got {other:?}"),
        }
    };
    assert_eq!(
        failed(at_binding().next(login::Event::NoPort("in use".to_string()))),
        AuthError::Other("no loopback port available: in use".to_string())
    );
    assert_eq!(
        failed(published(None, "https://i/a").next(login::Event::Recalled(None))),
        AuthError::Other(
            "`vercel` offers no client registration and keke has no client id for it".to_string()
        )
    );
    let registering =
        || published(Some("https://i/r"), "https://i/a").next(login::Event::Recalled(None)).0;
    assert_eq!(
        failed(registering().next(login::Event::Unreachable("down".to_string()))),
        AuthError::Other("could not register with `vercel`: down".to_string())
    );
    assert_eq!(
        failed(registering().next(login::Event::Unusable("html".to_string()))),
        AuthError::Other("registration answered unusably: html".to_string())
    );
    let refused = OAuthBody { error_description: Some("closed".to_string()), ..body() };
    assert_eq!(
        failed(registering().next(login::Event::Replied(reply(403, "403 Forbidden", refused)))),
        AuthError::Rejected(
            "`vercel` refused to register a client (403 Forbidden): closed".to_string()
        )
    );
    assert_eq!(
        failed(registering().next(login::Event::Replied(reply(200, "200 OK", body())))),
        AuthError::Other("the registration returned no client id".to_string())
    );
    let named = OAuthBody { client_id: Some("c".to_string()), ..body() };
    let broken =
        published(Some("https://i/r"), "nowhere").next(login::Event::Recalled(None)).0;
    let AuthError::Other(message) =
        failed(broken.next(login::Event::Replied(reply(200, "200 OK", named))))
    else {
        panic!("no URL");
    };
    assert!(message.starts_with("authorize endpoint is not a URL: "), "{message}");
    let kept = Registration { token_endpoint: "https://i/t".to_string(), ..registration() };
    let (login, _) =
        published(None, "https://i/a").next(login::Event::Recalled(Some(kept)));
    let (login, _) = login.next(login::Event::Code("x".to_string()));
    assert_eq!(
        failed(login.next(login::Event::Unreachable("down".to_string()))),
        AuthError::Other("the token endpoint is unreachable: down".to_string())
    );
    let given_up = AuthError::Other("timed out".to_string());
    assert_eq!(
        failed(started().next(login::Event::Failed(AuthError::Other("timed out".to_string())))),
        given_up
    );
}

#[test]
fn the_challenge_is_the_sha256_of_the_verifier() {
    let pkce = Pkce::generate();
    let expected = base64::engine::general_purpose::URL_SAFE_NO_PAD
        .encode(sha2::Sha256::digest(pkce.verifier.as_bytes()));
    assert_eq!(pkce.challenge, expected);
    assert_ne!(pkce.verifier, Pkce::generate().verifier);
}

#[test]
fn a_known_verifier_has_a_known_challenge() {
    let pkce = Pkce::from_verifier("dBjftJeZ4CVP-mB92K27uhbUJU1p1r_wW1gFWFOEjXk".to_string());
    assert_eq!(pkce.challenge, "E9Melhoa2OwvFrEMTJguCHaoeK1t8URWbuGJSstw-cM");
}

#[test]
fn a_token_has_as_many_characters_as_its_bits_take() {
    for (bytes, length) in [(0usize, 0usize), (1, 2), (2, 3), (3, 4), (16, 22), (32, 43)] {
        let token = random_token(bytes);
        assert_eq!(token.chars().count(), length);
        assert!(token.chars().all(|c| c.is_ascii_alphanumeric() || c == '-' || c == '_'));
    }
    assert!(Login::begin("a", "https://b").phase() == Phase::Challenging);
}

#[test]
fn events_are_taken_only_once_complete() {
    let mut buffer = String::from("event: endpoint\ndata: /messages?id=1\n\ndata: {\"id\"");
    let events = take_events(&mut buffer);
    assert_eq!(events.len(), 1);
    assert_eq!(events[0].name.as_deref(), Some("endpoint"));
    assert_eq!(events[0].data, "/messages?id=1");
    assert_eq!(buffer, "data: {\"id\"");
}

#[test]
fn multi_line_data_is_rejoined_with_newlines() {
    let mut buffer = String::from("data: {\r\ndata: \"a\": 1}\r\n\r\n");
    let events = take_events(&mut buffer);
    assert_eq!(events[0].data, "{\n\"a\": 1}");
}

#[test]
fn chunks_cut_anywhere_hold_the_same_events() {
    let whole = "event: a\r\ndata: 1\r\n\r\ndata: 2\ndata:  3\n\n: note\n\ndata: 4";
    let mut at_once = whole.to_string();
    let events = take_events(&mut at_once);
    assert_eq!(events.len(), 2);
    assert_eq!(events[1].data, "2\n 3");
    for cut in 0..=whole.len() {
        let mut buffer = whole[..cut].to_string();
        let mut taken = take_events(&mut buffer);
        buffer.push_str(&whole[cut..]);
        taken.extend(take_events(&mut buffer));
        assert_eq!(taken, events, "cut at {cut}");
        assert_eq!(buffer, at_once, "cut at {cut}");
    }
}

#[test]
fn a_relative_endpoint_resolves_against_the_stream_origin() {
    assert_eq!(
        absolute("https://example.com/mcp/sse", "/messages?s=1"),
        "https://example.com/messages?s=1"
    );
    assert_eq!(
        absolute("https://example.com/mcp/sse", "https://other.example/m"),
        "https://other.example/m"
    );
    assert_eq!(absolute("https://example.com", "m"), "https://example.com/m");
}

#[test]
fn only_the_answer_that_is_owed_ends_the_wait() {
    let mut reader = AnswerReader::new(2);
    assert_eq!(reader.push(&b"data: {\"id\":1}\n\ndata: nope\n\ndata: {\"id\"".to_vec()), None);
    assert_eq!(
        reader.push(&b":2,\"result\":{}}\n\n".to_vec()).as_deref(),
        Some("{\"id\":2,\"result\":{}}")
    );
    assert_eq!(
        reader.closed("tools/list"),
        RpcError::Closed { method: "tools/list".to_string() }
    );
    assert_eq!(find_answer(&vec![None, Some(None), Some(Some(4)), Some(Some(4))], 4), Some(2));
    assert_eq!(find_answer(&vec![Some(Some(1))], 4), None);
}

#[test]
fn a_stream_names_its_endpoint_once_and_then_answers() {
    let mut router = Router::new();
    let routes = router.push(
        &b"event: endpoint\ndata:  /post \n\nevent: endpoint\ndata: /other\n\ndata: {\"id\":7}\n\ndata: {}\n\n"
            .to_vec(),
    );
    assert_eq!(
        routes,
        vec![
            Routed::Endpoint("/post".to_string()),
            Routed::Dropped,
            Routed::Message { id: 7, data: "{\"id\":7}".to_string() },
            Routed::Dropped,
        ]
    );
    let event = Event { name: None, data: "x".to_string() };
    assert_eq!(routed(event, false, None), Routed::Dropped);
}

#[test]
fn a_refusal_says_what_a_person_can_do() {
    assert_eq!(
        sign_in_required("vercel", &Some("BEARER realm=x".to_string())),
        "`vercel` needs authorization — run `keke mcp login vercel`"
    );
    assert_eq!(
        sign_in_required("vercel", &None),
        "`vercel` refused the request as unauthorized (401)"
    );
}

#[test]
fn a_refusal_is_answered_by_one_refresh() {
    let mut connection = HttpConnection::streamable("https://m", Vec::new(), true, "m");
    let none = None;
    assert_eq!(
        connection.answered("ping", false, 401, "401 Unauthorized", &none, None),
        Verdict::Refresh
    );
    let refused = connection.answered("ping", true, 401, "401 Unauthorized", &none, None);
    assert!(
        matches!(&refused, Verdict::Fail(RpcError::Transport { detail, .. }) if detail.contains("401")),
        "{refused:?}"
    );
    assert_eq!(
        connection.answered("ping", false, 500, "500 Internal Server Error", &none, None),
        Verdict::Fail(RpcError::Transport {
            method: "ping".to_string(),
            detail: "the server answered 500 Internal Server Error".to_string(),
        })
    );
    assert_eq!(
        connection.answered("ping", false, 200, "200 OK", &none, Some("s1".to_string())),
        Verdict::Accept
    );
    assert!(
        connection
            .headers(&Some("t".to_string()))
            .ends_with(&[
                ("authorization".to_string(), "Bearer t".to_string()),
                ("mcp-session-id".to_string(), "s1".to_string()),
            ])
    );
    let mut open = HttpConnection::streamable("https://m", Vec::new(), false, "m");
    assert!(matches!(
        open.answered("ping", false, 401, "401 Unauthorized", &none, None),
        Verdict::Fail(_)
    ));
}

#[test]
fn requests_are_numbered_and_notifications_are_not() {
    let mut connection = HttpConnection::streamable("https://m", Vec::new(), false, "m");
    let (first, frame) = connection.request("ping", Json::Object(Vec::new()));
    assert_eq!(first, 1);
    assert_eq!(
        spell(&frame),
        r#"{"jsonrpc":"2.0","id":1,"method":"ping","params":{}}"#
    );
    assert_eq!(connection.request("ping", Json::Null).0, 2);
    assert_eq!(
        spell(&notification("ready", Json::Null)),
        r#"{"jsonrpc":"2.0","method":"ready","params":null}"#
    );
}

#[test]
fn a_stream_that_names_no_endpoint_is_a_failure() {
    let open = |naming: Naming| {
        HttpConnection::sse("https://m/sse", Vec::new(), false, "m", 50, naming)
    };
    let connection = open(Naming::Named("/post".to_string())).expect("named");
    assert_eq!(connection.post_url(), "https://m/post");
    assert!(connection.is_out_of_band());
    assert_eq!(
        open(Naming::Closed).expect_err("closed"),
        "the event stream at https://m/sse closed before it named an endpoint"
    );
    assert_eq!(
        open(Naming::TimedOut).expect_err("late"),
        "the event stream at https://m/sse named no endpoint within 50ms"
    );
}

#[test]
fn a_body_has_to_be_json() {
    assert!(check_body("ping", "{}").is_ok());
    let Err(RpcError::Malformed { detail, .. }) = check_body("ping", "<html>") else {
        panic!("malformed");
    };
    assert!(detail.starts_with("its body is not JSON: "), "{detail}");
    assert!(is_event_stream(&Some("text/event-stream; charset=utf-8".to_string())));
    assert!(!is_event_stream(&Some("application/json".to_string())));
}

fn remote(name: &str, description: &str) -> RemoteTool {
    RemoteTool {
        name: name.to_string(),
        description: description.to_string(),
        input_schema: Json::text("schema"),
    }
}

fn content(members: &[(&str, &str)]) -> Json {
    Json::Object(
        members
            .iter()
            .map(|(key, value)| (key.to_string(), Json::Text(value.to_string())))
            .collect(),
    )
}

fn said(blocks: &[ContentBlock]) -> Vec<&str> {
    blocks
        .iter()
        .map(|block| match block {
            ContentBlock::Text { text } => text.as_str(),
            other => panic!("text, got {other:?}"),
        })
        .collect()
}

#[test]
fn what_has_no_representation_is_reported_as_what_it_is() {
    let output = McpToolOutput {
        tool: "p:s:t".to_string(),
        content: vec![
            content(&[("type", "text"), ("text", "hi")]),
            content(&[("type", "image")]),
            Json::Null,
        ],
    };
    assert_eq!(
        said(&output.render()),
        vec!["hi", "[image content omitted]", "[unrecognized content omitted]"]
    );
    let empty = McpToolOutput { tool: "t".to_string(), content: Vec::new() };
    assert_eq!(said(&empty.render()), vec!["(the tool returned no content)"]);
}

#[test]
fn a_tool_is_named_by_plugin_and_server() {
    let tool = McpTool::new("plug", "srv", remote("read", ""), 50);
    assert_eq!(tool.id().as_str(), "plug:srv:read");
    assert_eq!(tool.remote_name(), "read");
    assert_eq!(tool.description().text, "An MCP tool. The server provided no description.");
    assert_eq!(tool.capabilities().kind, ToolKind::Execute);
    assert_eq!(tool.capabilities().timeout_millis, Some(50));
    assert_eq!(tool.budget(None), 50);
    assert_eq!(tool.budget(Some(20)), 20);
    assert_eq!(tool.budget(Some(90)), 50);
    assert_eq!(tool.input_schema_override(), Some(Json::text("schema")));
}

#[test]
fn a_failure_in_a_result_is_a_failure() {
    let tool = McpTool::new("p", "s", remote("t", "does"), 1);
    let result = |is_error| CallResult {
        content: vec![content(&[("text", "one")]), content(&[("text", "two")])],
        is_error,
    };
    assert_eq!(tool.outcome(Ok(result(false))).expect("fine").tool, "p:s:t");
    assert_eq!(
        tool.outcome(Ok(result(true))).expect_err("failed"),
        ToolError::Execution {
            code: "mcp_tool_error".to_string(),
            message: "one\ntwo".to_string(),
        }
    );
    assert_eq!(
        tool.outcome(Err("gone".to_string())).expect_err("failed"),
        ToolError::Execution {
            code: "mcp_call_failed".to_string(),
            message: "gone".to_string(),
        }
    );
    assert!(matches!(McpTool::unavailable(), ToolError::Execution { .. }));
}

#[test]
fn a_server_that_fails_costs_no_other_its_tools() {
    let listing = |server: &str, tools| Listing {
        plugin: "p".to_string(),
        server: server.to_string(),
        tools,
    };
    let tools = discover(
        vec![
            listing("a", Ok(vec![remote("x", ""), remote("y", "")])),
            listing("b", Err("timed out".to_string())),
            listing("c", Ok(vec![remote("x", "")])),
        ],
        9,
    );
    let ids: Vec<String> = tools.iter().map(|tool| tool.id().as_str().to_string()).collect();
    assert_eq!(ids, vec!["p:a:x", "p:a:y", "p:c:x"]);
    let options =
        McpOptions::from_timeouts(PluginTimeouts { mcp_startup_millis: 1, mcp_call_millis: 2 });
    assert_eq!(options.startup_timeout_millis, 1);
    assert_eq!(options.call_timeout_millis, 2);
}

#[test]
fn a_provoked_challenge_is_an_initialize() {
    assert_eq!(
        spell(&login::challenge_body()),
        r#"{"jsonrpc":"2.0","id":1,"method":"initialize","params":{}}"#
    );
}

/// What a working server lists.
fn good_server(plugin: &str) -> Listing {
    let text = Json::Object(vec![("text".to_string(), content(&[("type", "string")]))]);
    let schema = Json::Object(vec![
        ("type".to_string(), Json::text("object")),
        ("properties".to_string(), text),
    ]);
    Listing {
        plugin: plugin.to_string(),
        server: "files".to_string(),
        tools: Ok(vec![
            RemoteTool {
                name: "echo".to_string(),
                description: "Echo text back.".to_string(),
                input_schema: schema,
            },
            remote("environment", "Report the working directory and TOKEN."),
            remote("explode", "Always reports an error."),
        ]),
    }
}

fn ids(tools: &[McpTool]) -> Vec<String> {
    tools.iter().map(|tool| tool.id().as_str().to_string()).collect()
}

fn answer(said: &str, is_error: bool) -> CallResult {
    CallResult { content: vec![content(&[("type", "text"), ("text", said)])], is_error }
}

#[test]
fn a_working_server_contributes_its_tools_and_answers_a_call() {
    let tools = discover(vec![good_server("acme")], 1000);
    assert_eq!(
        ids(&tools),
        vec!["acme:files:echo", "acme:files:environment", "acme:files:explode"]
    );
    let out = tools[0].outcome(Ok(answer("hello", false))).expect("the call succeeds");
    assert_eq!(said(&out.render()), vec!["hello"]);
}

#[test]
fn the_servers_declared_argument_schema_reaches_the_model() {
    let tools = discover(vec![good_server("acme")], 1000);
    let description = tools[0].description().text;
    assert!(description.contains("Echo text back."), "{description}");
    let schema = tools[0].input_schema_override().expect("a schema");
    let text = schema.get("properties").and_then(|properties| properties.get("text"));
    assert!(matches!(text, Some(Json::Object(_))), "{schema:?}");
}

#[test]
fn two_plugins_exposing_the_same_tool_name_cannot_collide() {
    let tools = discover(vec![good_server("alpha"), good_server("beta")], 1000);
    assert!(ids(&tools).contains(&"alpha:files:echo".to_string()));
    assert!(ids(&tools).contains(&"beta:files:echo".to_string()));
    assert_eq!(tools.len(), 6);
}

#[test]
fn a_server_that_fails_to_start_does_not_take_the_others_with_it() {
    let broken = Listing {
        plugin: "broken".to_string(),
        server: "files".to_string(),
        tools: Err("no such file".to_string()),
    };
    let tools = discover(vec![good_server("works"), broken], 1000);
    assert!(ids(&tools).contains(&"works:files:echo".to_string()));
    assert!(
        !ids(&tools).iter().any(|id| id.starts_with("broken:")),
        "a server that never started has no tools to offer"
    );
    let out = tools[0].outcome(Ok(answer("still here", false))).expect("unaffected");
    assert_eq!(said(&out.render()), vec!["still here"]);
}

#[test]
fn a_tool_that_reports_an_error_comes_back_as_a_tool_error() {
    let tools = discover(vec![good_server("acme")], 1000);
    let error = tools[2]
        .outcome(Ok(answer("the tool refused", true)))
        .expect_err("an in-band MCP error is still a failure");
    assert!(
        matches!(&error, ToolError::Execution { code, message }
            if code == "mcp_tool_error" && message.contains("the tool refused")),
        "got {error:?}"
    );
}

#[test]
fn an_address_that_no_url_can_have_does_not_fit() {
    let recalled = |client_id: String| {
        login::Event::Recalled(Some(Registration {
            client_id,
            authorization_endpoint: "https://a/authorize".to_string(),
            token_endpoint: "https://i.example/token".to_string(),
            registration_endpoint: None,
        }))
    };
    let (login, _) = at_binding().next(login::Event::Bound("http://127.0.0.1:1/cb".to_string()));
    assert_eq!(login.phase(), Phase::Recalling);
    assert!(login.fits(&recalled("client".to_string())));

    let (long, _) = started().next(login::Event::Unchallenged);
    let (long, _) = long.next(login::Event::Resource(Some(protected())));
    let (long, _) = long.next(login::Event::Metadata(Some(ServerMetadata {
        authorization_endpoint: format!("https://a/{}", "x".repeat(17_000_000)),
        token_endpoint: "https://i.example/token".to_string(),
        registration_endpoint: None,
    })));
    let (long, _) = long.next(login::Event::Bound("http://127.0.0.1:1/cb".to_string()));
    assert!(!long.fits(&recalled("client".to_string())));
    assert!(long.fits(&login::Event::Recalled(None)));

    let mut ended = reply(200, "200 OK", body());
    ended.body.expires_in = Some(i64::MAX);
    ended.now = 1;
    assert!(!login.fits(&login::Event::Replied(ended)));
}

#[test]
fn a_refused_token_is_not_handed_out_again() {
    let auth = ServerAuth::new("vercel", "https://m.test");
    let held = tokens(None);
    let refused = held.access_token.clone();
    let Refresh::Post { endpoint, form } =
        auth.refresh(Some(&refused), &Some(held), &Some(registration()), 0)
    else {
        panic!("the refresh token is spent");
    };
    assert_eq!(endpoint, registration().token_endpoint);
    assert_eq!(form[0], ("grant_type".to_string(), "refresh_token".to_string()));
    // Another process has refreshed in the meantime.
    assert_eq!(
        auth.refresh(Some("older"), &Some(tokens(None)), &Some(registration()), 0),
        Refresh::Token(refused)
    );
}
