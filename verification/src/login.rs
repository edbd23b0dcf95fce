//! Logging accounts in.

use crate::accounts::{allocated, is_active, law_allocated_port_is_free, position};
use crate::config::{Config, OauthConfig, PortRange};
use crate::errors::{error_view, is_success, success, AppError, ErrorView};
use crate::json::{
    entry_views, is_listing, opt_string, parse_json, parsed, print_json, printed, Json, JsonView,
};
use crate::model::{
    account_views, metadata_text, no_tokens, Account, AccountMetadata, AccountView, Database,
    DatabaseView, PendingOauth, Tokens,
};
use crate::outside::{
    append_to_url, base64url, can_append, elapsed_nanos, encode_base64url, instant_now,
    is_account_id, measure_url, new_id, pair_views, random_base64, sha256, sha256_digest, url_shape,
    url_takes, url_with_pairs, Timestamp,
};
use crate::text::{contains, decimal, number_text, occurs_in, text_eq};
use crate::tokens::{
    apply_token_response, document_view, expiry_fits, metadata_from_tokens, reactivate,
    reactivated, token_metadata, with_token_response,
};
use crate::urls::{oauth_redirect_uri, provider, provider_missing, redirect_uri_view};
use vstd::prelude::*;
use vstd::string::*;
use vstd::utf8::encode_utf8;

verus! {

/// How long a login may be under way: ten minutes.
pub const LOGIN_NANOS: u128 = 600_000_000_000;

/// The entry for a key, at its last position; nothing if there is none.
pub open spec fn pending_position(list: Seq<(String, PendingOauth)>, key: Seq<char>) -> Option<int>
    decreases list.len(),
{
    if list.len() == 0 {
        None
    } else if list.last().0@ == key {
        Some(list.len() - 1)
    } else {
        pending_position(list.drop_last(), key)
    }
}

/// The logins that have been under way for less than ten minutes.
pub open spec fn recent(list: Seq<(String, PendingOauth)>, ages: Seq<u128>) -> Seq<
    (String, PendingOauth),
>
    decreases list.len(),
{
    if list.len() == 0 {
        Seq::empty()
    } else {
        let before = recent(list.drop_last(), ages.drop_last());
        if ages.last() < LOGIN_NANOS {
            before.push(list.last())
        } else {
            before
        }
    }
}

/// The logins that have been under way for less than ten minutes: `ages` says how long each has
/// been, in nanoseconds.
pub fn retain_recent(pending: Vec<(String, PendingOauth)>, ages: &Vec<u128>) -> (kept: Vec<
    (String, PendingOauth),
>)
    requires
        ages@.len() == pending@.len(),
    ensures
        kept@ == recent(pending@, ages@),
{
    let ghost whole = pending@;
    let mut kept: Vec<(String, PendingOauth)> = Vec::new();
    let total = ages.len();
    let mut at: usize = 0;
    for entry in it: pending
        invariant
            it.seq() == whole,
            at == it.index(),
            total == ages@.len(),
            ages@.len() == whole.len(),
            kept@ == recent(whole.take(it.index() as int), ages@.take(it.index() as int)),
    {
        let ghost i = it.index() as int;
        proof {
            assert(whole.take(i + 1).drop_last() =~= whole.take(i));
            assert(ages@.take(i + 1).drop_last() =~= ages@.take(i));
        }
        if ages[at] < LOGIN_NANOS {
            kept.push(entry);
        }
        at = at + 1;
    }
    proof {
        assert(whole.take(whole.len() as int) =~= whole);
        assert(ages@.take(whole.len() as int) =~= ages@);
    }
    kept
}

/// The logins without the one with this key.
pub open spec fn without_key(list: Seq<(String, PendingOauth)>, key: Seq<char>) -> Seq<
    (String, PendingOauth),
> {
    match pending_position(list, key) {
        Some(at) => list.remove(at),
        None => list,
    }
}

/// Takes the login with this key away, if there is one.
pub fn take_pending(pending: &mut Vec<(String, PendingOauth)>, key: &str) -> (taken: Option<
    PendingOauth,
>)
    ensures
        final(pending)@ == without_key(old(pending)@, key@),
        match pending_position(old(pending)@, key@) {
            Some(at) => taken == Some(old(pending)@[at].1),
            None => taken is None,
        },
{
    let n = pending.len();
    let mut i = n;
    assert(pending@.take(n as int) =~= pending@);
    while i > 0
        invariant
            i <= n,
            n == pending@.len(),
            pending@ == old(pending)@,
            pending_position(pending@, key@) == pending_position(pending@.take(i as int), key@),
        decreases i,
    {
        assert(pending@.take(i as int).drop_last() =~= pending@.take(i - 1));
        if text_eq(pending[i - 1].0.as_str(), key) {
            let (_, entry) = pending.remove(i - 1);
            return Some(entry);
        }
        i = i - 1;
    }
    None
}

/// Leaves the logins that have been under way for less than ten minutes.
pub fn prune(pending: &mut Vec<(String, PendingOauth)>)
    ensures
        exists|ages: Seq<u128>|
            ages.len() == old(pending)@.len() && final(pending)@ == #[trigger] recent(
                old(pending)@,
                ages,
            ),
{
    let mut ages: Vec<u128> = Vec::new();
    let mut i: usize = 0;
    while i < pending.len()
        invariant
            i <= pending@.len(),
            pending@ == old(pending)@,
            ages@.len() == i,
        decreases pending@.len() - i,
    {
        ages.push(elapsed_nanos(&pending[i].1.created_at));
        i = i + 1;
    }
    let mut all: Vec<(String, PendingOauth)> = Vec::new();
    std::mem::swap(pending, &mut all);
    let mut kept = retain_recent(all, &ages);
    std::mem::swap(pending, &mut kept);
    assert(pending@ == recent(old(pending)@, ages@));
}

/// The text of a parameter of the login page: a text as it is, anything else as JSON.
pub open spec fn param_text(value: JsonView) -> Seq<char> {
    match value {
        JsonView::String(text) => text,
        _ => printed(value),
    }
}

/// The parameters of the login page.
pub open spec fn authorize_pairs(
    oauth: OauthConfig,
    redirect_uri: Seq<char>,
    challenge: Seq<char>,
    state: Seq<char>,
    extra: Seq<(Seq<char>, JsonView)>,
) -> Seq<(Seq<char>, Seq<char>)> {
    let scope = if oauth.scope@.len() == 0 {
        "openid profile email offline_access"@
    } else {
        oauth.scope@
    };
    seq![
        ("response_type"@, "code"@),
        ("client_id"@, oauth.client_id@),
        ("redirect_uri"@, redirect_uri),
        ("scope"@, scope),
        ("code_challenge"@, challenge),
        ("code_challenge_method"@, "S256"@),
        ("state"@, state),
    ] + extra.map_values(|entry: (Seq<char>, JsonView)| (entry.0, param_text(entry.1)))
}

/// The address of a login page with parameters, or an error: the page may have no good address, or
/// one that is too long with the parameters.
pub open spec fn authorize_outcome(base: Seq<char>, pairs: Seq<(Seq<char>, Seq<char>)>) -> Result<
    Seq<char>,
    ErrorView,
> {
    match url_shape(base) {
        Err(message) => Err(error_view(500, message)),
        Ok(shape) => if !url_takes(shape, pairs) {
            Err(error_view(500, "Authorization URL is too long"@))
        } else {
            match url_with_pairs(base, pairs) {
                Ok(url) => Ok(url),
                Err(message) => Err(error_view(500, message)),
            }
        },
    }
}

/// A text or an error, as contracts speak of it.
pub open spec fn text_outcome(result: Result<String, AppError>) -> Result<Seq<char>, ErrorView> {
    match result {
        Ok(text) => Ok(text@),
        Err(error) => Err(error@),
    }
}

fn pair(name: &str, value: &str) -> (pair: (String, String))
    ensures
        pair.0@ == name@,
        pair.1@ == value@,
{
    (name.to_owned(), value.to_owned())
}

/// The parameters of the login page: those that the login needs, and those that the provider's
/// configuration adds.
pub fn authorize_parameters(
    oauth: &OauthConfig,
    redirect_uri: &str,
    challenge: &str,
    state: &str,
) -> (pairs: Vec<(String, String)>)
    ensures
        exists|extra: Seq<(Seq<char>, JsonView)>|
            is_listing(extra, oauth.extra_authorize_params@) && pair_views(pairs@)
                == #[trigger] authorize_pairs(*oauth, redirect_uri@, challenge@, state@, extra),
{
    let scope = if oauth.scope.as_str().is_empty() {
        "openid profile email offline_access"
    } else {
        oauth.scope.as_str()
    };
    let mut pairs: Vec<(String, String)> = Vec::new();
    pairs.push(pair("response_type", "code"));
    pairs.push(pair("client_id", oauth.client_id.as_str()));
    pairs.push(pair("redirect_uri", redirect_uri));
    pairs.push(pair("scope", scope));
    pairs.push(pair("code_challenge", challenge));
    pairs.push(pair("code_challenge_method", "S256"));
    pairs.push(pair("state", state));
    let extra = oauth.extra_authorize_params.listing();
    let ghost list = entry_views(extra@);
    let ghost whole = authorize_pairs(*oauth, redirect_uri@, challenge@, state@, list);
    assert(pair_views(pairs@) =~= whole.take(7));
    let mut i: usize = 0;
    while i < extra.len()
        invariant
            i <= extra@.len(),
            list == entry_views(extra@),
            whole == authorize_pairs(*oauth, redirect_uri@, challenge@, state@, list),
            pair_views(pairs@) == whole.take(7 + i),
        decreases extra@.len() - i,
    {
        let value = match &extra[i].1 {
            Json::String(text) => text.clone(),
            other => print_json(other),
        };
        let ghost before = pairs@;
        let name = extra[i].0.clone();
        pairs.push((name, value));
        proof {
            assert(list[i as int] == (name@, extra@[i as int].1@));
            assert(whole[7 + i] == (name@, value@));
            assert(pair_views(pairs@) =~= pair_views(before).push((name@, value@)));
            assert(whole.take(7 + i + 1) =~= whole.take(7 + i as int).push((name@, value@)));
        }
        i = i + 1;
    }
    assert(whole.take(7 + extra@.len() as int) =~= whole);
    pairs
}

/// Whether a provider has all that a login needs.
pub open spec fn can_log_in(oauth: OauthConfig) -> bool {
    oauth.authorize_url@.len() > 0 && oauth.client_id@.len() > 0 && oauth.token_url@.len() > 0
}

/// The error of a provider that has not.
pub open spec fn login_missing(id: Seq<char>) -> ErrorView {
    error_view(400, "Provider "@ + id + " does not have OAuth configured"@)
}

/// Whether a text is the base64 form of 32 bytes.
pub open spec fn is_secret(text: Seq<char>) -> bool {
    exists|bytes: Seq<u8>| bytes.len() == 32 && text == #[trigger] base64url(bytes)
}

/// The challenge for a verifier: the base64 form of the digest of its characters.
pub open spec fn challenge_of(verifier: Seq<char>) -> Seq<char> {
    base64url(sha256(encode_utf8(verifier)))
}

/// The challenge for a verifier.
pub fn challenge_for(verifier: &str) -> (challenge: String)
    ensures
        challenge@ == challenge_of(verifier@),
{
    let digest = sha256_digest(verifier.as_bytes());
    encode_base64url(digest.as_slice())
}

/// Whether a login was begun: the old logins that are recent are followed by the new one, and the
/// login page is asked for it.
pub open spec fn is_begun(
    oauth: OauthConfig,
    provider_id: Seq<char>,
    redirect_uri: Seq<char>,
    reauth: Option<Seq<char>>,
    before: Seq<(String, PendingOauth)>,
    after: Seq<(String, PendingOauth)>,
    result: Result<Seq<char>, ErrorView>,
) -> bool {
    exists|ages: Seq<u128>, extra: Seq<(Seq<char>, JsonView)>|
        #![trigger recent(before, ages), is_listing(extra, oauth.extra_authorize_params@)]
        {
            let state = after.last().0@;
            let login = after.last().1;
            &&& ages.len() == before.len()
            &&& is_listing(extra, oauth.extra_authorize_params@)
            &&& after.len() > 0
            &&& after.drop_last() == without_key(recent(before, ages), state)
            &&& is_secret(state)
            &&& is_secret(login.verifier@)
            &&& login.provider_id@ == provider_id
            &&& login.redirect_uri@ == redirect_uri
            &&& opt_string(login.reauth_account_id) == reauth
            &&& result == authorize_outcome(
                oauth.authorize_url@,
                authorize_pairs(
                    oauth,
                    redirect_uri,
                    challenge_of(login.verifier@),
                    state,
                    extra,
                ),
            )
        }
}

/// Begins a login at a provider and gives the address of its login page. `reauth` is the account
/// that logs in again, if it is not a new one.
pub fn begin_oauth(
    config: &Config,
    provider_id: &str,
    reauth: Option<String>,
    pending: &mut Vec<(String, PendingOauth)>,
) -> (result: Result<String, AppError>)
    ensures
        match config.provider(provider_id@) {
            None => {
                &&& text_outcome(result) == Err::<Seq<char>, ErrorView>(
                    provider_missing(provider_id@),
                )
                &&& final(pending)@ == old(pending)@
            },
            Some(provider) => if can_log_in(provider.oauth) {
                is_begun(
                    provider.oauth,
                    provider_id@,
                    redirect_uri_view(*config, provider),
                    opt_string(reauth),
                    old(pending)@,
                    final(pending)@,
                    text_outcome(result),
                )
            } else {
                &&& text_outcome(result) == Err::<Seq<char>, ErrorView>(login_missing(provider_id@))
                &&& final(pending)@ == old(pending)@
            },
        },
{
    let provider = match provider(config, provider_id) {
        Ok(provider) => provider,
        Err(error) => {
            return Err(error);
        },
    };
    let oauth = &provider.oauth;
    if oauth.authorize_url.as_str().is_empty() || oauth.client_id.as_str().is_empty()
        || oauth.token_url.as_str().is_empty() {
        let mut message = "Provider ".to_owned();
        message.append(provider_id);
        message.append(" does not have OAuth configured");
        return Err(AppError::new(400, message.as_str()));
    }
    let verifier = random_base64(32);
    let challenge = challenge_for(verifier.as_str());
    let state = random_base64(32);
    let redirect_uri = oauth_redirect_uri(config, provider);
    prune(pending);
    let ghost kept = pending@;
    let _ = take_pending(pending, state.as_str());
    let ghost rest = pending@;
    let pairs = authorize_parameters(
        oauth,
        redirect_uri.as_str(),
        challenge.as_str(),
        state.as_str(),
    );
    pending.push(
        (
            state,
            PendingOauth {
                provider_id: provider_id.to_owned(),
                verifier,
                redirect_uri,
                reauth_account_id: reauth,
                created_at: instant_now(),
            },
        ),
    );
    proof {
        assert(pending@.drop_last() =~= rest);
        let ages = choose|ages: Seq<u128>|
            ages.len() == old(pending)@.len() && kept == #[trigger] recent(old(pending)@, ages);
        let extra = choose|extra: Seq<(Seq<char>, JsonView)>|
            is_listing(extra, oauth.extra_authorize_params@) && pair_views(pairs@)
                == #[trigger] authorize_pairs(
                *oauth,
                redirect_uri@,
                challenge@,
                state@,
                extra,
            );
        assert(recent(old(pending)@, ages) == kept);
    }
    let shape = match measure_url(oauth.authorize_url.as_str()) {
        Ok(shape) => shape,
        Err(message) => {
            return Err(AppError::internal(message.as_str()));
        },
    };
    if !can_append(shape, &pairs) {
        return Err(AppError::internal("Authorization URL is too long"));
    }
    match append_to_url(oauth.authorize_url.as_str(), &pairs) {
        Ok(url) => Ok(url),
        Err(message) => Err(AppError::internal(message.as_str())),
    }
}

/// Whether no two logins have the same key.
pub open spec fn distinct_keys(list: Seq<(String, PendingOauth)>) -> bool {
    forall|i: int, j: int| 0 <= i < j < list.len() ==> #[trigger] list[i].0@ != #[trigger] list[j].0@
}

proof fn lemma_position(list: Seq<(String, PendingOauth)>, key: Seq<char>)
    ensures
        match pending_position(list, key) {
            Some(at) => 0 <= at < list.len() && list[at].0@ == key,
            None => forall|i: int| 0 <= i < list.len() ==> (#[trigger] list[i]).0@ != key,
        },
    decreases list.len(),
{
    if list.len() > 0 && list.last().0@ != key {
        let short = list.drop_last();
        lemma_position(short, key);
        if pending_position(list, key) is None {
            assert forall|i: int| 0 <= i < list.len() implies (#[trigger] list[i]).0@ != key by {
                if i < short.len() {
                    assert(short[i].0@ != key);
                }
            }
        }
    }
}

proof fn lemma_recent_keys(list: Seq<(String, PendingOauth)>, ages: Seq<u128>)
    requires
        distinct_keys(list),
        ages.len() == list.len(),
    ensures
        distinct_keys(recent(list, ages)),
        forall|i: int|
            0 <= i < recent(list, ages).len() ==> list.contains(#[trigger] recent(list, ages)[i]),
    decreases list.len(),
{
    if list.len() > 0 {
        let short = list.drop_last();
        let before = recent(short, ages.drop_last());
        let after = recent(list, ages);
        lemma_recent_keys(short, ages.drop_last());
        assert forall|i: int| 0 <= i < after.len() implies list.contains(#[trigger] after[i]) by {
            if i < before.len() {
                let j = choose|j: int| 0 <= j < short.len() && short[j] == before[i];
                assert(list[j] == after[i]);
            } else {
                assert(list[list.len() - 1] == after[i]);
            }
        }
        assert forall|i: int, j: int| 0 <= i < j < after.len() implies #[trigger] after[i].0@
            != #[trigger] after[j].0@ by {
            if j == before.len() {
                assert(short.contains(before[i]));
                let k = choose|k: int| 0 <= k < short.len() && short[k] == before[i];
                assert(list[k].0@ != list[list.len() - 1].0@);
            } else {
                assert(before[i].0@ != before[j].0@);
            }
        }
    }
}

/// The answer to a login is taken once: after that its state is not known any more, and every other
/// login is still under way.
pub proof fn law_state_is_taken_once(
    list: Seq<(String, PendingOauth)>,
    key: Seq<char>,
    other: Seq<char>,
)
    requires
        distinct_keys(list),
    ensures
        distinct_keys(without_key(list, key)),
        pending_position(without_key(list, key), key) is None,
        other != key ==> (match pending_position(list, other) {
            Some(at) => pending_position(without_key(list, key), other) matches Some(now)
                && without_key(list, key)[now] == list[at],
            None => pending_position(without_key(list, key), other) is None,
        }),
{
    let rest = without_key(list, key);
    lemma_position(list, key);
    lemma_position(rest, key);
    lemma_position(list, other);
    lemma_position(rest, other);
    if let Some(at) = pending_position(list, key) {
        assert forall|i: int| 0 <= i < rest.len() implies (#[trigger] rest[i]) == list[if i < at {
            i
        } else {
            i + 1
        }] by {}
        if let Some(there) = pending_position(rest, key) {
            let was = if there < at {
                there
            } else {
                there + 1
            };
            assert(rest[there] == list[was]);
            assert(list[at].0@ == list[was].0@);
        }
        if other != key {
            if let Some(was) = pending_position(list, other) {
                let there = if was < at {
                    was
                } else {
                    was - 1
                };
                assert(rest[there] == list[was]);
                let now = pending_position(rest, other).unwrap();
                assert(rest[now].0@ == rest[there].0@);
            } else if let Some(now) = pending_position(rest, other) {
                assert(rest[now].0@ == other);
            }
        }
    }
}

/// A login that was begun is found by its state, and no two logins have the same state.
pub proof fn law_begun_login_is_found(
    oauth: OauthConfig,
    provider_id: Seq<char>,
    redirect_uri: Seq<char>,
    reauth: Option<Seq<char>>,
    before: Seq<(String, PendingOauth)>,
    after: Seq<(String, PendingOauth)>,
    result: Result<Seq<char>, ErrorView>,
)
    requires
        distinct_keys(before),
        is_begun(oauth, provider_id, redirect_uri, reauth, before, after, result),
    ensures
        distinct_keys(after),
        pending_position(after, after.last().0@) == Some(after.len() - 1),
{
    let state = after.last().0@;
    let (ages, extra) = choose|ages: Seq<u128>, extra: Seq<(Seq<char>, JsonView)>|
        #![trigger recent(before, ages), is_listing(extra, oauth.extra_authorize_params@)]
        {
            &&& ages.len() == before.len()
            &&& is_listing(extra, oauth.extra_authorize_params@)
            &&& after.len() > 0
            &&& after.drop_last() == without_key(recent(before, ages), state)
        };
    lemma_recent_keys(before, ages);
    let rest = after.drop_last();
    law_state_is_taken_once(recent(before, ages), state, state);
    lemma_position(rest, state);
    assert forall|i: int, j: int| 0 <= i < j < after.len() implies #[trigger] after[i].0@
        != #[trigger] after[j].0@ by {
        assert(after[i] == rest[i]);
        if j < rest.len() {
            assert(after[j] == rest[j]);
        }
    }
}

/// The form that asks for tokens in exchange for a code.
pub open spec fn exchange_pairs(
    client_id: Seq<char>,
    login: PendingOauth,
    code: Seq<char>,
) -> Seq<(Seq<char>, Seq<char>)> {
    seq![
        ("grant_type"@, "authorization_code"@),
        ("code"@, code),
        ("redirect_uri"@, login.redirect_uri@),
        ("client_id"@, client_id),
        ("code_verifier"@, login.verifier@),
    ]
}

/// The form that asks for tokens in exchange for a code.
pub fn exchange_form(oauth: &OauthConfig, login: &PendingOauth, code: &str) -> (pairs: Vec<
    (String, String),
>)
    ensures
        pair_views(pairs@) == exchange_pairs(oauth.client_id@, *login, code@),
{
    let mut pairs: Vec<(String, String)> = Vec::new();
    pairs.push(pair("grant_type", "authorization_code"));
    pairs.push(pair("code", code));
    pairs.push(pair("redirect_uri", login.redirect_uri.as_str()));
    pairs.push(pair("client_id", oauth.client_id.as_str()));
    pairs.push(pair("code_verifier", login.verifier.as_str()));
    assert(pair_views(pairs@) =~= exchange_pairs(oauth.client_id@, *login, code@));
    pairs
}

/// The tokens that an answer holds, or an error, with what reading it as JSON gives.
pub open spec fn exchange_of(status: u16, document: Result<JsonView, Seq<char>>) -> Result<
    JsonView,
    ErrorView,
> {
    if !is_success(status) {
        Err(
            error_view(
                status,
                "OAuth token exchange failed with HTTP "@ + decimal(status as nat),
            ),
        )
    } else {
        match document {
            Ok(token) => Ok(token),
            Err(message) => Err(error_view(500, message)),
        }
    }
}

/// A document or an error, as contracts speak of it.
pub open spec fn json_outcome(result: Result<Json, AppError>) -> Result<JsonView, ErrorView> {
    match result {
        Ok(json) => Ok(json@),
        Err(error) => Err(error@),
    }
}

/// The tokens that an answer holds, or an error, with what reading it as JSON gives.
pub fn exchange_reply_with(status: u16, document: Result<Json, String>) -> (result: Result<
    Json,
    AppError,
>)
    ensures
        json_outcome(result) == exchange_of(status, document_view(document)),
{
    if !success(status) {
        let mut message = "OAuth token exchange failed with HTTP ".to_owned();
        message.append(number_text(status as u64).as_str());
        return Err(AppError::new(status, message.as_str()));
    }
    match document {
        Ok(token) => Ok(token),
        Err(message) => Err(AppError::internal(message.as_str())),
    }
}

/// The tokens that an answer holds, or an error.
pub fn exchange_reply(status: u16, text: &str) -> (result: Result<Json, AppError>)
    ensures
        json_outcome(result) == exchange_of(status, parsed(text@)),
{
    exchange_reply_with(status, parse_json(text))
}

/// Whether an account that is still there has this identifier at this provider.
pub open spec fn is_twin(
    account: AccountView,
    provider_id: Seq<char>,
    account_id: Seq<char>,
) -> bool {
    is_active(account) && account.provider == provider_id && metadata_text(
        account.metadata,
        "accountId"@,
    ) == Some(account_id)
}

/// The first account from `i` on that is still there and has this identifier at this provider.
pub open spec fn twin_position(
    accounts: Seq<AccountView>,
    provider_id: Seq<char>,
    account_id: Seq<char>,
    i: int,
) -> Option<int>
    decreases accounts.len() - i,
{
    if i >= accounts.len() {
        None
    } else if is_twin(accounts[i], provider_id, account_id) {
        Some(i)
    } else {
        twin_position(accounts, provider_id, account_id, i + 1)
    }
}

/// The account that a login belongs to: the one that logs in again, or else the one that has the
/// same identifier at the provider.
pub open spec fn login_position(
    accounts: Seq<AccountView>,
    reauth: Option<Seq<char>>,
    provider_id: Seq<char>,
    metadata: Map<Seq<char>, JsonView>,
) -> Option<int> {
    let again = match reauth {
        Some(id) => position(accounts, id, 0),
        None => None,
    };
    match again {
        Some(at) => Some(at),
        None => match metadata_text(metadata, "accountId"@) {
            Some(account_id) => twin_position(accounts, provider_id, account_id, 0),
            None => None,
        },
    }
}

impl Database {
    /// The account that a login belongs to.
    fn login_index(
        &self,
        reauth: &Option<String>,
        provider_id: &str,
        metadata: &AccountMetadata,
    ) -> (at: Option<usize>)
        ensures
            login_position(self@.accounts, opt_string(*reauth), provider_id@, metadata@) == (
            match at {
                Some(at) => Some(at as int),
                None => None,
            }),
            at matches Some(at) ==> at < self.accounts@.len(),
    {
        if let Some(id) = reauth {
            if let Some(at) = self.index(id.as_str()) {
                return Some(at);
            }
        }
        let account_id = match metadata.string("accountId") {
            Some(account_id) => account_id,
            None => {
                return None;
            },
        };
        let mut i: usize = 0;
        while i < self.accounts.len()
            invariant
                i <= self.accounts@.len(),
                login_position(self@.accounts, opt_string(*reauth), provider_id@, metadata@)
                    == twin_position(self@.accounts, provider_id@, account_id@, 0),
                twin_position(self@.accounts, provider_id@, account_id@, 0) == twin_position(
                    self@.accounts,
                    provider_id@,
                    account_id@,
                    i as int,
                ),
            decreases self.accounts@.len() - i,
        {
            let account = &self.accounts[i];
            assert(self@.accounts[i as int] == account@);
            let same = match account.metadata.string("accountId") {
                Some(own) => text_eq(own, account_id),
                None => false,
            };
            if same && text_eq(account.provider.as_str(), provider_id) && !text_eq(
                account.status.as_str(),
                "removed",
            ) {
                return Some(i);
            }
            i = i + 1;
        }
        None
    }
}

/// An account after a login.
pub open spec fn logged_in(
    account: AccountView,
    provider_id: Seq<char>,
    token: JsonView,
    now: Timestamp,
    time: Seq<char>,
) -> AccountView {
    let known = AccountView {
        provider: provider_id,
        metadata: account.metadata.union_prefer_right(token_metadata(token)),
        ..account
    };
    reactivated(with_token_response(known, token, now), time)
}

/// An account that was made by a login; it has no port yet.
pub open spec fn new_account_view(
    id: Seq<char>,
    provider_id: Seq<char>,
    token: JsonView,
    now: Timestamp,
    time: Seq<char>,
) -> AccountView {
    with_token_response(
        AccountView {
            id,
            provider: provider_id,
            port: None,
            status: "active"@,
            metadata: token_metadata(token),
            tokens: no_tokens(),
            created_at: time,
            updated_at: time,
            last_error: None,
            last_request_at: None,
            last_status: None,
            usage_snapshot: None,
        },
        token,
        now,
    )
}

/// What a login comes to.
#[derive(Debug)]
pub enum LoginStep {
    /// An account that was known has logged in again.
    Known(Account),
    /// A new account needs a port.
    New(Account),
}

impl Database {
    /// Takes over the tokens of a login, which came at `now`: an account that is known is renewed, for
    /// any other a new one is made, with the identifier `id`, which needs a port.
    pub fn settle_login_with(
        &mut self,
        login: &PendingOauth,
        token: &Json,
        id: String,
        now: Timestamp,
        time: &str,
    ) -> (step: LoginStep)
        requires
            expiry_fits(token@, now),
        ensures
            match login_position(
                old(self)@.accounts,
                opt_string(login.reauth_account_id),
                login.provider_id@,
                token_metadata(token@),
            ) {
                Some(at) => {
                    let account = logged_in(
                        old(self)@.accounts[at],
                        login.provider_id@,
                        token@,
                        now,
                        time@,
                    );
                    &&& step matches LoginStep::Known(known) && known@ == account
                    &&& final(self)@ == (DatabaseView {
                        accounts: old(self)@.accounts.update(at, account),
                        ..old(self)@
                    })
                },
                None => {
                    &&& step matches LoginStep::New(made) && made@ == new_account_view(
                        id@,
                        login.provider_id@,
                        token@,
                        now,
                        time@,
                    )
                    &&& final(self)@ == old(self)@
                },
            },
            final(self)@.accounts.len() == old(self)@.accounts.len(),
            forall|account_id: Seq<char>|
                login.reauth_account_id is None && #[trigger] names_identity(
                    token_metadata(token@),
                    account_id,
                ) ==> (step is Known <==> exists|k: int|
                    0 <= k < old(self)@.accounts.len() && has_identity(
                        #[trigger] old(self)@.accounts[k],
                        login.provider_id@,
                        account_id,
                    )),
    {
        proof {
            assert forall|account_id: Seq<char>|
                login.reauth_account_id is None && #[trigger] names_identity(
                    token_metadata(token@),
                    account_id,
                ) implies (login_position(
                self@.accounts,
                None,
                login.provider_id@,
                token_metadata(token@),
            ) is Some <==> exists|k: int|
                0 <= k < self@.accounts.len() && has_identity(
                    #[trigger] self@.accounts[k],
                    login.provider_id@,
                    account_id,
                )) by {
                lemma_twin(self@.accounts, login.provider_id@, account_id, 0);
            }
        }
        let metadata = metadata_from_tokens(token);
        match self.login_index(&login.reauth_account_id, login.provider_id.as_str(), &metadata) {
            Some(at) => {
                let ghost before = self.accounts@;
                self.accounts[at].provider = login.provider_id.clone();
                self.accounts[at].metadata.merge(metadata);
                apply_token_response(&mut self.accounts[at], token, now);
                reactivate(&mut self.accounts[at], time);
                assert(account_views(self.accounts@) =~= account_views(before).update(
                    at as int,
                    self.accounts@[at as int]@,
                ));
                LoginStep::Known(self.accounts[at].clone())
            },
            None => {
                let mut account = Account {
                    id,
                    provider: login.provider_id.clone(),
                    port: None,
                    status: "active".to_owned(),
                    metadata,
                    tokens: Tokens::default(),
                    created_at: time.to_owned(),
                    updated_at: time.to_owned(),
                    last_error: None,
                    last_request_at: None,
                    last_status: None,
                    usage_snapshot: None,
                };
                apply_token_response(&mut account, token, now);
                LoginStep::New(account)
            },
        }
    }

    /// Takes over the tokens of a login, which came at `now`. A new account has a random identifier.
    pub fn settle_login(&mut self, login: &PendingOauth, token: &Json, now: Timestamp, time: &str) -> (step:
        LoginStep)
        requires
            expiry_fits(token@, now),
        ensures
            match login_position(
                old(self)@.accounts,
                opt_string(login.reauth_account_id),
                login.provider_id@,
                token_metadata(token@),
            ) {
                Some(at) => {
                    let account = logged_in(
                        old(self)@.accounts[at],
                        login.provider_id@,
                        token@,
                        now,
                        time@,
                    );
                    &&& step matches LoginStep::Known(known) && known@ == account
                    &&& final(self)@ == (DatabaseView {
                        accounts: old(self)@.accounts.update(at, account),
                        ..old(self)@
                    })
                },
                None => {
                    &&& step matches LoginStep::New(made) && is_account_id(made@.id) && made@
                        == new_account_view(made@.id, login.provider_id@, token@, now, time@)
                    &&& final(self)@ == old(self)@
                },
            },
            final(self)@.accounts.len() == old(self)@.accounts.len(),
            forall|account_id: Seq<char>|
                login.reauth_account_id is None && #[trigger] names_identity(
                    token_metadata(token@),
                    account_id,
                ) ==> (step is Known <==> exists|k: int|
                    0 <= k < old(self)@.accounts.len() && has_identity(
                        #[trigger] old(self)@.accounts[k],
                        login.provider_id@,
                        account_id,
                    )),
    {
        let id = new_id();
        self.settle_login_with(login, token, id, now, time)
    }
}

/// The search for a port that a new account can be served at.
pub struct PortSearch {
    skipped: Vec<u16>,
}

/// The error of a range that is used up.
pub open spec fn no_ports() -> ErrorView {
    error_view(500, "No downstream ports are available in the configured range"@)
}

/// Whether a failure to listen at a port says that another process has it.
pub open spec fn says_in_use(message: Seq<char>) -> bool {
    occurs_in("address already in use"@, message) || occurs_in("os error 98"@, message)
}

impl PortSearch {
    /// The ports that were found to be taken by other processes.
    pub closed spec fn view(&self) -> Seq<u16> {
        self.skipped@
    }

    /// A search that has tried nothing yet.
    pub fn new() -> (search: PortSearch)
        ensures
            search@ == Seq::<u16>::empty(),
    {
        PortSearch { skipped: Vec::new() }
    }

    /// The next port to try.
    pub fn next(&self, db: &mut Database, range: PortRange) -> (result: Result<u16, AppError>)
        ensures
            final(db)@ == allocated(old(db)@, range, self@).1,
            match allocated(old(db)@, range, self@).0 {
                Some(port) => result == Ok::<u16, AppError>(port),
                None => result matches Err(error) && error@ == no_ports(),
            },
    {
        match db.allocate_port(range, &self.skipped) {
            Some(port) => Ok(port),
            None => Err(
                AppError::internal("No downstream ports are available in the configured range"),
            ),
        }
    }

    /// Notes that a port could not be listened at. The search goes on only where another process has
    /// the port.
    pub fn failed(&mut self, port: u16, message: &str) -> (result: Result<(), AppError>)
        ensures
            final(self)@ == old(self)@.push(port),
            result is Ok == says_in_use(message@),
            result matches Err(error) ==> error@ == error_view(500, message@),
    {
        self.skipped.push(port);
        if contains(message, "address already in use") || contains(message, "os error 98") {
            Ok(())
        } else {
            Err(AppError::internal(message))
        }
    }
}

impl Database {
    /// Gives a new account its port and adds it.
    pub fn add_account(&mut self, account: &mut Account, port: u16)
        ensures
            final(account)@ == (AccountView { port: Some(port), ..old(account)@ }),
            final(self)@ == (DatabaseView {
                accounts: old(self)@.accounts.push(final(account)@),
                ..old(self)@
            }),
    {
        account.port = Some(port);
        let copy = account.clone();
        let ghost before = self.accounts@;
        self.accounts.push(copy);
        assert(account_views(self.accounts@) =~= account_views(before).push(copy@));
    }
}

/// A port that was found to be taken is not tried again in the same search.
pub proof fn law_failed_port_is_not_tried_again(
    db: DatabaseView,
    range: PortRange,
    skipped: Seq<u16>,
    port: u16,
)
    requires
        skipped.contains(port),
    ensures
        allocated(db, range, skipped).0 != Some(port),
{
    law_allocated_port_is_free(db, range, skipped);
}

/// Logging in again keeps the address of an account: its identifier and its port stay.
pub proof fn law_login_keeps_the_port(
    account: AccountView,
    provider_id: Seq<char>,
    token: JsonView,
    now: Timestamp,
    time: Seq<char>,
)
    ensures
        logged_in(account, provider_id, token, now, time).port == account.port,
        logged_in(account, provider_id, token, now, time).id == account.id,
        logged_in(account, provider_id, token, now, time).status == "active"@,
        logged_in(account, provider_id, token, now, time).last_error is None,
{
}

/// Whether an account that was not removed, whatever else its status, belongs to this provider and
/// has this identifier there.
pub open spec fn has_identity(
    account: AccountView,
    provider_id: Seq<char>,
    account_id: Seq<char>,
) -> bool {
    &&& account.status != "removed"@
    &&& account.provider == provider_id
    &&& account.metadata.contains_key("accountId"@)
    &&& account.metadata["accountId"@] == JsonView::String(account_id)
}

/// Whether tokens name this identifier.
pub open spec fn names_identity(metadata: Map<Seq<char>, JsonView>, account_id: Seq<char>) -> bool {
    metadata.contains_key("accountId"@) && metadata["accountId"@] == JsonView::String(account_id)
}

proof fn lemma_twin(
    accounts: Seq<AccountView>,
    provider_id: Seq<char>,
    account_id: Seq<char>,
    i: int,
)
    requires
        0 <= i <= accounts.len(),
    ensures
        match twin_position(accounts, provider_id, account_id, i) {
            Some(at) => {
                &&& i <= at < accounts.len()
                &&& has_identity(accounts[at], provider_id, account_id)
                &&& forall|k: int|
                    i <= k < at ==> !has_identity(#[trigger] accounts[k], provider_id, account_id)
            },
            None => forall|k: int|
                i <= k < accounts.len() ==> !has_identity(
                    #[trigger] accounts[k],
                    provider_id,
                    account_id,
                ),
        },
    decreases accounts.len() - i,
{
    if i < accounts.len() {
        lemma_twin(accounts, provider_id, account_id, i + 1);
    }
}

proof fn lemma_named(accounts: Seq<AccountView>, id: Seq<char>, i: int)
    requires
        0 <= i <= accounts.len(),
    ensures
        match position(accounts, id, i) {
            Some(at) => {
                &&& i <= at < accounts.len()
                &&& accounts[at].id == id
                &&& forall|k: int| i <= k < at ==> (#[trigger] accounts[k]).id != id
            },
            None => forall|k: int| i <= k < accounts.len() ==> (#[trigger] accounts[k]).id != id,
        },
    decreases accounts.len() - i,
{
    if i < accounts.len() {
        lemma_named(accounts, id, i + 1);
    }
}

/// A login belongs to the account that it was begun for. Where it was begun for none that is there,
/// it belongs to the first account, in use or not, that was not removed and has the identifier at the
/// provider that the tokens name; and to a new one exactly if there is none.
pub proof fn law_login_belongs_to_the_known_account(
    accounts: Seq<AccountView>,
    reauth: Option<Seq<char>>,
    provider_id: Seq<char>,
    metadata: Map<Seq<char>, JsonView>,
    account_id: Seq<char>,
    at: int,
)
    ensures
        0 <= at < accounts.len() && reauth is Some && accounts[at].id == reauth->0 && (forall|k: int|
            0 <= k < at ==> (#[trigger] accounts[k]).id != reauth->0) ==> login_position(
            accounts,
            reauth,
            provider_id,
            metadata,
        ) == Some(at),
        (reauth is None || forall|k: int|
            0 <= k < accounts.len() ==> (#[trigger] accounts[k]).id != reauth->0) && names_identity(
            metadata,
            account_id,
        ) ==> {
            &&& 0 <= at < accounts.len() && has_identity(accounts[at], provider_id, account_id) && (
            forall|k: int|
                0 <= k < at ==> !has_identity(#[trigger] accounts[k], provider_id, account_id))
                ==> login_position(accounts, reauth, provider_id, metadata) == Some(at)
            &&& (forall|k: int|
                0 <= k < accounts.len() ==> !has_identity(
                    #[trigger] accounts[k],
                    provider_id,
                    account_id,
                )) ==> login_position(accounts, reauth, provider_id, metadata) is None
        },
        (reauth is None || forall|k: int|
            0 <= k < accounts.len() ==> (#[trigger] accounts[k]).id != reauth->0) && (forall|
            id: Seq<char>,
        |
            !#[trigger] names_identity(metadata, id)) ==> login_position(
            accounts,
            reauth,
            provider_id,
            metadata,
        ) is None,
{
    if let Some(id) = reauth {
        lemma_named(accounts, id, 0);
        if 0 <= at < accounts.len() && accounts[at].id == id && (forall|k: int|
            0 <= k < at ==> (#[trigger] accounts[k]).id != id) {
            let found = position(accounts, id, 0)->0;
            assert(accounts[found].id == id);
        }
    }
    lemma_twin(accounts, provider_id, account_id, 0);
    if let Some(found) = twin_position(accounts, provider_id, account_id, 0) {
        assert(has_identity(accounts[found], provider_id, account_id));
        if 0 <= at < accounts.len() {
            assert(has_identity(accounts[at], provider_id, account_id) || at != found);
        }
    }
    if let Some(id) = metadata_text(metadata, "accountId"@) {
        assert(names_identity(metadata, id));
    }
}

/// A login that is settled renews what the tokens say and nothing else: the account belongs to the
/// provider of the login, is active without an error, and has the identity that the tokens give;
/// what they do not say stays.
pub proof fn law_login_renews_the_account(
    account: AccountView,
    provider_id: Seq<char>,
    token: JsonView,
    now: Timestamp,
    time: Seq<char>,
    key: Seq<char>,
)
    ensures
        ({
            let after = logged_in(account, provider_id, token, now, time);
            let told = token_metadata(token);
            &&& after.provider == provider_id
            &&& after.status == "active"@
            &&& after.updated_at == time
            &&& after.created_at == account.created_at
            &&& after.usage_snapshot == account.usage_snapshot
            &&& after.last_request_at == account.last_request_at
            &&& told.contains_key(key) ==> after.metadata.contains_key(key) && after.metadata[key]
                == told[key]
            &&& !told.contains_key(key) ==> (after.metadata.contains_key(key)
                <==> account.metadata.contains_key(key)) && (account.metadata.contains_key(key)
                ==> after.metadata[key] == account.metadata[key])
            &&& token.str_at("access_token"@) is Some ==> after.tokens.access_token == token.str_at(
                "access_token"@,
            )->0
            &&& token.str_at("refresh_token"@) is Some ==> after.tokens.refresh_token
                == token.str_at("refresh_token"@)->0
            &&& token.str_at("refresh_token"@) is None ==> after.tokens.refresh_token
                == account.tokens.refresh_token
            &&& token.str_at("id_token"@) is Some ==> after.tokens.id_token == token.str_at(
                "id_token"@,
            )->0
        }),
{
}

/// A new account is active, belongs to the provider of the login, has the tokens and the identity
/// that the login gave, and no port, error or usage yet.
pub proof fn law_new_account_is_blank(
    id: Seq<char>,
    provider_id: Seq<char>,
    token: JsonView,
    now: Timestamp,
    time: Seq<char>,
)
    ensures
        ({
            let made = new_account_view(id, provider_id, token, now, time);
            &&& made.id == id
            &&& made.provider == provider_id
            &&& made.status == "active"@
            &&& made.port is None
            &&& made.metadata == token_metadata(token)
            &&& made.created_at == time
            &&& made.updated_at == time
            &&& made.last_error is None
            &&& made.last_request_at is None
            &&& made.last_status is None
            &&& made.usage_snapshot is None
            &&& token.str_at("access_token"@) is Some ==> made.tokens.access_token == token.str_at(
                "access_token"@,
            )->0
            &&& token.str_at("refresh_token"@) is Some ==> made.tokens.refresh_token == token.str_at(
                "refresh_token"@,
            )->0
        }),
{
    let told = token_metadata(token);
    assert(told.union_prefer_right(told) =~= told);
}

/// Whether a list of parameters gives this value under this name.
pub open spec fn has_pair(
    pairs: Seq<(Seq<char>, Seq<char>)>,
    name: Seq<char>,
    value: Seq<char>,
) -> bool {
    exists|i: int| 0 <= i < pairs.len() && #[trigger] pairs[i] == (name, value)
}

/// The login page is told who asks, where to come back to, the state and the challenge of this login,
/// what to grant, and everything that the configuration adds.
pub proof fn law_login_page_is_told_all(
    oauth: OauthConfig,
    redirect_uri: Seq<char>,
    challenge: Seq<char>,
    state: Seq<char>,
    extra: Seq<(Seq<char>, JsonView)>,
)
    ensures
        ({
            let pairs = authorize_pairs(oauth, redirect_uri, challenge, state, extra);
            &&& pairs.len() == 7 + extra.len()
            &&& has_pair(pairs, "response_type"@, "code"@)
            &&& has_pair(pairs, "client_id"@, oauth.client_id@)
            &&& has_pair(pairs, "redirect_uri"@, redirect_uri)
            &&& has_pair(pairs, "code_challenge"@, challenge)
            &&& has_pair(pairs, "code_challenge_method"@, "S256"@)
            &&& has_pair(pairs, "state"@, state)
            &&& oauth.scope@.len() > 0 ==> has_pair(pairs, "scope"@, oauth.scope@)
            &&& oauth.scope@.len() == 0 ==> has_pair(
                pairs,
                "scope"@,
                "openid profile email offline_access"@,
            )
            &&& forall|i: int|
                0 <= i < extra.len() ==> has_pair(
                    pairs,
                    (#[trigger] extra[i]).0,
                    if extra[i].1 is String {
                        extra[i].1.str()->0
                    } else {
                        printed(extra[i].1)
                    },
                )
        }),
{
    let pairs = authorize_pairs(oauth, redirect_uri, challenge, state, extra);
    assert(pairs[0] == ("response_type"@, "code"@));
    assert(pairs[1] == ("client_id"@, oauth.client_id@));
    assert(pairs[2] == ("redirect_uri"@, redirect_uri));
    assert(pairs[3].0 == "scope"@);
    assert(pairs[4] == ("code_challenge"@, challenge));
    assert(pairs[5] == ("code_challenge_method"@, "S256"@));
    assert(pairs[6] == ("state"@, state));
    assert forall|i: int| 0 <= i < extra.len() implies has_pair(
        pairs,
        (#[trigger] extra[i]).0,
        if extra[i].1 is String {
            extra[i].1.str()->0
        } else {
            printed(extra[i].1)
        },
    ) by {
        assert(pairs[7 + i] == (extra[i].0, param_text(extra[i].1)));
    }
}

/// Tokens are asked for with what the login page was told: the same address to come back to, the
/// same client, and the verifier of the challenge, beside the code that came back.
pub proof fn law_exchange_matches_the_login(
    oauth: OauthConfig,
    login: PendingOauth,
    code: Seq<char>,
    state: Seq<char>,
    extra: Seq<(Seq<char>, JsonView)>,
)
    ensures
        ({
            let asked = authorize_pairs(
                oauth,
                login.redirect_uri@,
                base64url(sha256(encode_utf8(login.verifier@))),
                state,
                extra,
            );
            let pairs = exchange_pairs(oauth.client_id@, login, code);
            &&& challenge_of(login.verifier@) == base64url(sha256(encode_utf8(login.verifier@)))
            &&& pairs.len() == 5
            &&& has_pair(pairs, "grant_type"@, "authorization_code"@)
            &&& has_pair(pairs, "code"@, code)
            &&& has_pair(pairs, "code_verifier"@, login.verifier@)
            &&& has_pair(pairs, "redirect_uri"@, login.redirect_uri@)
            &&& has_pair(asked, "redirect_uri"@, login.redirect_uri@)
            &&& has_pair(pairs, "client_id"@, oauth.client_id@)
            &&& has_pair(asked, "client_id"@, oauth.client_id@)
        }),
{
    law_login_page_is_told_all(
        oauth,
        login.redirect_uri@,
        base64url(sha256(encode_utf8(login.verifier@))),
        state,
        extra,
    );
    let pairs = exchange_pairs(oauth.client_id@, login, code);
    assert(pairs[0] == ("grant_type"@, "authorization_code"@));
    assert(pairs[1] == ("code"@, code));
    assert(pairs[2] == ("redirect_uri"@, login.redirect_uri@));
    assert(pairs[3] == ("client_id"@, oauth.client_id@));
    assert(pairs[4] == ("code_verifier"@, login.verifier@));
}

/// Only a successful answer in JSON holds tokens; any other is an error, with the status of the
/// answer where it was no success.
pub proof fn law_only_successful_exchanges_count(
    status: u16,
    document: Result<JsonView, Seq<char>>,
)
    ensures
        exchange_of(status, document) is Ok <==> 200 <= status < 300 && document is Ok,
        exchange_of(status, document) is Ok ==> exchange_of(status, document)->Ok_0
            == document->Ok_0,
        !(200 <= status < 300) ==> exchange_of(status, document)->Err_0.status == status,
        200 <= status < 300 && document is Err ==> exchange_of(status, document)->Err_0.status
            == 500,
{
}

proof fn lemma_recent(list: Seq<(String, PendingOauth)>, ages: Seq<u128>, i: int)
    requires
        ages.len() == list.len(),
        0 <= i < list.len(),
    ensures
        ages[i] < 600_000_000_000 ==> recent(list, ages).contains(list[i]),
        recent(list, ages).len() <= list.len(),
        (forall|k: int| 0 <= k < ages.len() ==> (#[trigger] ages[k]) < 600_000_000_000) ==> recent(
            list,
            ages,
        ) == list,
    decreases list.len(),
{
    let short = list.drop_last();
    let younger = ages.drop_last();
    let kept = recent(list, ages);
    assert(forall|k: int| 0 <= k < younger.len() ==> younger[k] == ages[k]);
    assert(ages[ages.len() - 1] == ages.last());
    if short.len() > 0 {
        lemma_recent(short, younger, if i < short.len() {
            i
        } else {
            0
        });
        if i < short.len() && ages[i] < 600_000_000_000 {
            let before = recent(short, younger);
            let k = choose|k: int| 0 <= k < before.len() && before[k] == short[i];
            assert(kept[k] == list[i]);
        }
    }
    if i == list.len() - 1 && ages[i] < 600_000_000_000 {
        assert(kept[kept.len() - 1] == list[i]);
    }
    if forall|k: int| 0 <= k < ages.len() ==> (#[trigger] ages[k]) < 600_000_000_000 {
        if short.len() == 0 {
            assert(recent(short, younger) =~= short);
        }
        assert(short.push(list.last()) =~= list);
    }
}

proof fn lemma_only_recent(list: Seq<(String, PendingOauth)>, ages: Seq<u128>, j: int)
    requires
        ages.len() == list.len(),
        0 <= j < recent(list, ages).len(),
    ensures
        exists|k: int|
            0 <= k < list.len() && #[trigger] list[k] == recent(list, ages)[j] && ages[k]
                < 600_000_000_000,
    decreases list.len(),
{
    let short = list.drop_last();
    let younger = ages.drop_last();
    let before = recent(short, younger);
    if j < before.len() {
        lemma_only_recent(short, younger, j);
        let k = choose|k: int|
            0 <= k < short.len() && #[trigger] short[k] == before[j] && younger[k] < 600_000_000_000;
        assert(list[k] == recent(list, ages)[j]);
        assert(ages[k] == younger[k]);
    } else {
        assert(list[list.len() - 1] == recent(list, ages)[j]);
    }
}

/// A login is waited for during ten minutes: one that has been under way for less is kept, and no
/// other.
pub proof fn law_logins_are_waited_for_ten_minutes(
    list: Seq<(String, PendingOauth)>,
    ages: Seq<u128>,
    i: int,
)
    requires
        ages.len() == list.len(),
        0 <= i < list.len(),
    ensures
        ages[i] < 10 * 60 * 1_000_000_000 ==> recent(list, ages).contains(list[i]),
        (forall|k: int| 0 <= k < ages.len() ==> (#[trigger] ages[k]) < 10 * 60 * 1_000_000_000)
            ==> recent(list, ages) == list,
        forall|j: int|
            0 <= j < recent(list, ages).len() ==> exists|k: int|
                0 <= k < list.len() && #[trigger] list[k] == (#[trigger] recent(list, ages)[j])
                    && ages[k] < 10 * 60 * 1_000_000_000,
{
    lemma_recent(list, ages, i);
    assert forall|j: int| 0 <= j < recent(list, ages).len() implies exists|k: int|
        0 <= k < list.len() && #[trigger] list[k] == (#[trigger] recent(list, ages)[j]) && ages[k]
            < 10 * 60 * 1_000_000_000 by {
        lemma_only_recent(list, ages, j);
    }
}

/// A login that was begun is bound to secrets of its own: what is remembered of it is what the login
/// page was told, its state and the challenge for its verifier, and where it comes back to.
pub proof fn law_begun_login_is_what_the_page_was_told(
    oauth: OauthConfig,
    provider_id: Seq<char>,
    redirect_uri: Seq<char>,
    reauth: Option<Seq<char>>,
    before: Seq<(String, PendingOauth)>,
    after: Seq<(String, PendingOauth)>,
    result: Result<Seq<char>, ErrorView>,
)
    requires
        is_begun(oauth, provider_id, redirect_uri, reauth, before, after, result),
    ensures
        after.len() > 0,
        ({
            let login = after.last().1;
            &&& login.provider_id@ == provider_id
            &&& login.redirect_uri@ == redirect_uri
            &&& login.reauth_account_id is Some <==> reauth is Some
            &&& reauth is Some ==> login.reauth_account_id->0@ == reauth->0
            &&& exists|pairs: Seq<(Seq<char>, Seq<char>)>|
                {
                    &&& result == #[trigger] authorize_outcome(oauth.authorize_url@, pairs)
                    &&& has_pair(pairs, "state"@, after.last().0@)
                    &&& has_pair(
                        pairs,
                        "code_challenge"@,
                        base64url(sha256(encode_utf8(login.verifier@))),
                    )
                    &&& has_pair(pairs, "redirect_uri"@, redirect_uri)
                    &&& has_pair(pairs, "client_id"@, oauth.client_id@)
                }
        }),
{
    let state = after.last().0@;
    let login = after.last().1;
    let (ages, extra) = choose|ages: Seq<u128>, extra: Seq<(Seq<char>, JsonView)>|
        #![trigger recent(before, ages), is_listing(extra, oauth.extra_authorize_params@)]
        {
            &&& ages.len() == before.len()
            &&& is_listing(extra, oauth.extra_authorize_params@)
            &&& after.len() > 0
            &&& after.drop_last() == without_key(recent(before, ages), state)
            &&& is_secret(state)
            &&& is_secret(login.verifier@)
            &&& login.provider_id@ == provider_id
            &&& login.redirect_uri@ == redirect_uri
            &&& opt_string(login.reauth_account_id) == reauth
            &&& result == authorize_outcome(
                oauth.authorize_url@,
                authorize_pairs(oauth, redirect_uri, challenge_of(login.verifier@), state, extra),
            )
        };
    let challenge = challenge_of(login.verifier@);
    law_login_page_is_told_all(oauth, redirect_uri, challenge, state, extra);
    let pairs = authorize_pairs(oauth, redirect_uri, challenge, state, extra);
    assert(result == authorize_outcome(oauth.authorize_url@, pairs));
}

/// A login page with a good address that takes its parameters is opened with them; any other is an
/// error of the server.
pub proof fn law_login_page_is_opened(base: Seq<char>, pairs: Seq<(Seq<char>, Seq<char>)>)
    ensures
        ({
            let outcome = authorize_outcome(base, pairs);
            &&& url_shape(base) is Err ==> outcome is Err && outcome->Err_0.status == 500
                && outcome->Err_0.message == url_shape(base)->Err_0
            &&& url_shape(base) is Ok && url_takes(url_shape(base)->Ok_0, pairs) && url_with_pairs(
                base,
                pairs,
            ) is Ok ==> outcome == Ok::<Seq<char>, ErrorView>(url_with_pairs(base, pairs)->Ok_0)
            &&& outcome is Ok ==> url_shape(base) is Ok && url_takes(url_shape(base)->Ok_0, pairs)
        }),
{
}

/// Whatever stands around it, a message that another process has the port is understood, and lets the
/// search go on.
pub proof fn law_taken_port_is_understood(before: Seq<char>, after: Seq<char>)
    ensures
        says_in_use(before + "address already in use"@ + after),
        says_in_use(before + "os error 98"@ + after),
{
    let i = before.len() as int;
    let first = "address already in use"@;
    let second = "os error 98"@;
    assert((before + first + after).subrange(i, i + first.len()) =~= first);
    assert((before + second + after).subrange(i, i + second.len()) =~= second);
}

/// A provider has logins exactly if it has a login page, a place for tokens and a client.
pub proof fn law_logins_need_three_settings(oauth: OauthConfig)
    ensures
        can_log_in(oauth) <==> oauth.authorize_url@.len() > 0 && oauth.token_url@.len() > 0
            && oauth.client_id@.len() > 0,
{
}

}
