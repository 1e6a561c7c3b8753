//! Turning HTTP outcomes into the errors that a retry policy is written against.
//!
//! The classification is shared across the wire formats on purpose: an engine deciding whether
//! to back off, refresh credentials, or surface an error must not get a different answer
//! depending on which schema the vendor happens to speak.

use vstd::prelude::*;
use crate::text;
use crate::text::{ascii_lower, ascii_lowered, decimal_of, occurs, opt, trimmed};
use crate::wire::{ProviderError, ProviderErrorView};

verus! {

/// What a failure to get any response is.
pub open spec fn transport_failure(
    timeout: bool,
    connect: bool,
    request: bool,
    message: Seq<char>,
) -> ProviderErrorView {
    if timeout || connect || request {
        ProviderErrorView::Transient(message)
    } else {
        ProviderErrorView::Protocol(message)
    }
}

/// A failure that happened before any response arrived: whether it was a timeout, a failure to
/// connect or a failure to send, and what it says.
pub fn transport_error(timeout: bool, connect: bool, request: bool, message: String) -> (r:
    ProviderError)
    ensures
        r@ == transport_failure(timeout, connect, request, message@),
{
    if timeout || connect || request {
        ProviderError::Transient(message)
    } else {
        ProviderError::Protocol(message)
    }
}

/// Whether a text, whatever the case of its letters, holds one of the words by which vendors
/// blame a credential.
pub open spec fn blames_the_credential(body: Seq<char>) -> bool {
    let body = ascii_lowered(body);
    ||| occurs(body, "unauthenticated"@)
    ||| occurs(body, "unauthorized"@)
    ||| occurs(body, "invalid_api_key"@)
    ||| occurs(body, "invalid api key"@)
    ||| occurs(body, "invalid_token"@)
    ||| occurs(body, "invalid token"@)
    ||| occurs(body, "expired"@)
    ||| occurs(body, "missing"@)
    ||| occurs(body, "revoked"@)
    ||| occurs(body, "no access"@)
}

/// Whether a 403's body blames the credential rather than the account.
///
/// xAI answers an out-of-credits account with `personal-team-blocked:spending-limit`, which is
/// not something a token refresh can fix; it answers a bad credential with `unauthenticated`.
pub fn names_an_auth_failure(body: &str) -> (r: bool)
    ensures
        r == blames_the_credential(body@),
{
    let lowered = text::to_ascii_lowercase(body);
    let body = lowered.as_str();
    text::contains(body, "unauthenticated") || text::contains(body, "unauthorized")
        || text::contains(body, "invalid_api_key") || text::contains(body, "invalid api key")
        || text::contains(body, "invalid_token") || text::contains(body, "invalid token")
        || text::contains(body, "expired") || text::contains(body, "missing")
        || text::contains(body, "revoked") || text::contains(body, "no access")
}

/// What a JSON text holds at a pointer: nothing, something that is no string, or a string.
pub uninterp spec fn member(body: Seq<char>, pointer: Seq<char>) -> Option<Option<Seq<char>>>;

/// The text of a member that may be missing, or be no string.
pub open spec fn member_view(member: Option<Option<String>>) -> Option<Option<Seq<char>>> {
    match member {
        Some(value) => Some(opt(value)),
        None => None,
    }
}

/// `serde_json::Value::pointer` on the value that `serde_json::from_str` reads from the body,
/// and `as_str` on what it finds. A body that is no JSON holds nothing at any pointer. What
/// it finds is a function of the body and the pointer.
#[verifier::external_body]
pub(crate) fn member_at(body: &str, pointer: &str) -> (r: Option<Option<String>>)
    ensures
        member_view(r) == member(body@, pointer@),
{
    let value = serde_json::from_str::<serde_json::Value>(body).ok()?;
    value.pointer(pointer).map(|found| found.as_str().map(|t| t.to_string()))
}

/// What number a JSON text holds at a pointer: nothing where the text is no JSON, and no number
/// where there is none that fits.
pub uninterp spec fn number_in(body: Seq<char>, pointer: Seq<char>) -> Option<Option<u64>>;

/// `serde_json::Value::pointer` on the value that `serde_json::from_str` reads from the body, and
/// `as_u64` on what it finds. What it finds is a function of the body and the pointer.
#[verifier::external_body]
pub(crate) fn number_at(body: &str, pointer: &str) -> (r: Option<Option<u64>>)
    ensures
        r == number_in(body@, pointer@),
{
    let value = serde_json::from_str::<serde_json::Value>(body).ok()?;
    Some(value.pointer(pointer).and_then(|found| found.as_u64()))
}

/// What a failure's body says, given what it holds as its error and as the message beside or
/// within it.
pub open spec fn detail_of(
    error: Option<Option<Seq<char>>>,
    message: Option<Option<Seq<char>>>,
    body: Seq<char>,
) -> Seq<char> {
    match (error, message) {
        (Some(Some(text)), _) => text,
        (_, Some(Some(text))) => text,
        _ => trimmed(body),
    }
}

/// Chooses what a failure's body says.
pub fn chosen_detail(
    error: Option<Option<String>>,
    message: Option<Option<String>>,
    body: &str,
) -> (r: String)
    ensures
        r@ == detail_of(member_view(error), member_view(message), body@),
{
    match (error, message) {
        (Some(Some(text)), _) => text,
        (_, Some(Some(text))) => text,
        _ => text::trim(body),
    }
}

/// What the body of a failure says: the error where it is a text, else the message within the
/// error where there is one, or beside it where there is none, else the body itself.
pub open spec fn error_text(body: Seq<char>) -> Seq<char> {
    let error = member(body, "/error"@);
    detail_of(
        error,
        if error is Some {
            member(body, "/error/message"@)
        } else {
            member(body, "/message"@)
        },
        body,
    )
}

/// Vendors report failures as `{"error": {"message": ..}}`, as `{"error": ".."}`, and as plain
/// text from an edge that never reached them. Keep whatever is there rather than inventing a
/// generic sentence.
pub fn error_detail(body: &str) -> (r: String)
    ensures
        r@ == error_text(body@),
{
    let error = member_at(body, "/error");
    let message = if error.is_some() {
        member_at(body, "/error/message")
    } else {
        member_at(body, "/message")
    };
    chosen_detail(error, message, body)
}

/// What a status that is no success means, given what its body says.
pub open spec fn status_failure(
    status: u16,
    retry_after: Option<u64>,
    body: Seq<char>,
    detail: Seq<char>,
) -> ProviderErrorView {
    if status == 401 || (status == 403 && blames_the_credential(body)) {
        ProviderErrorView::Unauthorized(detail)
    } else if status == 402 || status == 403 {
        ProviderErrorView::NotEntitled(detail)
    } else if status == 404 {
        ProviderErrorView::UnknownModel(detail)
    } else if status == 429 {
        ProviderErrorView::RateLimited { retry_after_millis: retry_after }
    } else if status == 400 || status == 422 {
        ProviderErrorView::InvalidRequest(detail)
    } else if 500 <= status < 600 {
        ProviderErrorView::Transient(detail)
    } else {
        ProviderErrorView::Protocol(
            "provider returned HTTP "@ + decimal_of(status as nat) + ": "@ + detail,
        )
    }
}

/// What a status that is no success means. A 403 is the ambiguous one: vendors use it both for a
/// rejected credential and for an account that has run out of credits. Only the former is worth
/// refreshing a token over.
pub fn classified(status: u16, retry_after: Option<u64>, body: &str, detail: String) -> (r:
    ProviderError)
    ensures
        r@ == status_failure(status, retry_after, body@, detail@),
{
    if status == 401 || (status == 403 && names_an_auth_failure(body)) {
        ProviderError::Unauthorized(detail)
    } else if status == 402 || status == 403 {
        ProviderError::NotEntitled(detail)
    } else if status == 404 {
        ProviderError::UnknownModel(detail)
    } else if status == 429 {
        ProviderError::RateLimited { retry_after_millis: retry_after }
    } else if status == 400 || status == 422 {
        ProviderError::InvalidRequest(detail)
    } else if 500 <= status && status < 600 {
        ProviderError::Transient(detail)
    } else {
        let code = text::decimal(status as u64);
        let mut message = text::concat3("provider returned HTTP ", code.as_str(), ": ");
        message.append(detail.as_str());
        ProviderError::Protocol(message)
    }
}

/// Turns a response that is no success into the error a retry policy expects: the one with the
/// status `status`, the delay it asks for and its body.
///
/// The distinctions matter: an engine retries `RateLimited` and `Transient` with backoff,
/// refreshes credentials once for `Unauthorized`, and surfaces `InvalidRequest` immediately
/// because retrying it unchanged cannot help.
pub fn check_status(status: u16, retry_after: Option<u64>, body: &str) -> (r: Result<
    (),
    ProviderError,
>)
    ensures
        r is Ok <==> 200 <= status < 300,
        r is Err ==> r->Err_0@ == status_failure(status, retry_after, body@, error_text(body@)),
{
    if 200 <= status && status < 300 {
        return Ok(());
    }
    let detail = error_detail(body);
    Err(classified(status, retry_after, body, detail))
}

/// A refresh is asked for on a 401, and on a 403 that blames the credential, and on nothing
/// else; a retry on a 429 and on the server's own failures, and on nothing else.
pub proof fn a_status_decides_what_to_do_next(
    status: u16,
    retry_after: Option<u64>,
    body: Seq<char>,
    detail: Seq<char>,
)
    ensures
        status_failure(status, retry_after, body, detail) is Unauthorized <==> status == 401 || (
        status == 403 && blames_the_credential(body)),
        (status_failure(status, retry_after, body, detail) is RateLimited || status_failure(
            status,
            retry_after,
            body,
            detail,
        ) is Transient) <==> status == 429 || 500 <= status < 600,
{
}

/// A body blames the credential just where it holds one of the words for that at any place, in
/// whatever case it is written.
pub proof fn a_blamed_credential_is_named(body: Seq<char>)
    ensures
        ({
            let words = seq![
                "unauthenticated"@,
                "unauthorized"@,
                "invalid_api_key"@,
                "invalid api key"@,
                "invalid_token"@,
                "invalid token"@,
                "expired"@,
                "missing"@,
                "revoked"@,
                "no access"@,
            ];
            blames_the_credential(body) <==> exists|w: int, k: int|
                {
                    &&& 0 <= w < words.len()
                    &&& 0 <= k <= body.len() - words[w].len()
                    &&& (#[trigger] body.subrange(k, k + words[w].len())).map_values(
                        |c: char| ascii_lower(c),
                    ) == words[w]
                }
        }),
{
    let lower = |c: char| ascii_lower(c);
    let words = seq![
        "unauthenticated"@,
        "unauthorized"@,
        "invalid_api_key"@,
        "invalid api key"@,
        "invalid_token"@,
        "invalid token"@,
        "expired"@,
        "missing"@,
        "revoked"@,
        "no access"@,
    ];
    let lowered = ascii_lowered(body);
    assert forall|w: int, k: int|
        0 <= w < words.len() && 0 <= k <= body.len() - words[w].len() implies (
    (#[trigger] body.subrange(k, k + words[w].len())).map_values(lower) == lowered.subrange(
        k,
        k + words[w].len(),
    )) by {
        assert(body.subrange(k, k + words[w].len()).map_values(lower) =~= lowered.subrange(
            k,
            k + words[w].len(),
        ));
    }
    if blames_the_credential(body) {
        assert(occurs(lowered, words[0]) || occurs(lowered, words[1]) || occurs(lowered, words[2])
            || occurs(lowered, words[3]) || occurs(lowered, words[4]) || occurs(lowered, words[5])
            || occurs(lowered, words[6]) || occurs(lowered, words[7]) || occurs(lowered, words[8])
            || occurs(lowered, words[9]));
        let w = choose|w: int| 0 <= w < words.len() && occurs(lowered, #[trigger] words[w]);
        let k = choose|k: int| text::occurs_at(lowered, words[w], k);
        assert(body.subrange(k, k + words[w].len()).map_values(lower) == words[w]);
    }
    if exists|w: int, k: int|
        {
            &&& 0 <= w < words.len()
            &&& 0 <= k <= body.len() - words[w].len()
            &&& (#[trigger] body.subrange(k, k + words[w].len())).map_values(lower) == words[w]
        } {
        let (w, k) = choose|w: int, k: int|
            {
                &&& 0 <= w < words.len()
                &&& 0 <= k <= body.len() - words[w].len()
                &&& (#[trigger] body.subrange(k, k + words[w].len())).map_values(lower) == words[w]
            };
        assert(text::occurs_at(lowered, words[w], k));
        assert(occurs(lowered, words[w]));
    }
}

/// What a vendor says is passed on in its own words: its error where that is a text, its message
/// where that is one, and else all that it sent. Every failure but a rate limit tells it.
pub proof fn a_failure_is_told_in_the_vendors_words(
    error: Option<Option<Seq<char>>>,
    message: Option<Option<Seq<char>>>,
    status: u16,
    retry_after: Option<u64>,
    body: Seq<char>,
)
    ensures
        ({
            let detail = detail_of(error, message, body);
            &&& error matches Some(Some(said)) ==> detail == said
            &&& !(error matches Some(Some(_))) ==> {
                &&& message matches Some(Some(said)) ==> detail == said
                &&& !(message matches Some(Some(_))) ==> detail == trimmed(body)
            }
            &&& match status_failure(status, retry_after, body, detail) {
                ProviderErrorView::Unauthorized(said) => said == detail,
                ProviderErrorView::NotEntitled(said) => said == detail && (status == 402 || status
                    == 403),
                ProviderErrorView::UnknownModel(said) => said == detail && status == 404,
                ProviderErrorView::InvalidRequest(said) => said == detail && (status == 400
                    || status == 422),
                ProviderErrorView::Transient(said) => said == detail && status / 100 == 5,
                ProviderErrorView::RateLimited { retry_after_millis } => retry_after_millis
                    == retry_after && status == 429,
                ProviderErrorView::Protocol(said) => said.len() >= detail.len() && said.skip(
                    said.len() - detail.len(),
                ) == detail,
            }
        }),
{
    let detail = detail_of(error, message, body);
    if let ProviderErrorView::Protocol(said) = status_failure(status, retry_after, body, detail) {
        assert(said.skip(said.len() - detail.len()) =~= detail);
    }
}

} // verus!
