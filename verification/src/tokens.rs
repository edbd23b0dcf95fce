//! The tokens of accounts: reading them, keeping them fresh, and what to do when they fail.

use crate::accounts::position;
use crate::config::Config;
use crate::errors::{auth_error, error_view, is_success, success, AppError, ErrorView};
use crate::json::{
    json_str, no_fields, opt_string, opt_view, or_default, or_view, parse_json, parse_json_bytes,
    parsed, parsed_bytes, Json, JsonMap, JsonView,
};
use crate::model::{
    account_views, Account, AccountMetadata, AccountView, Database, DatabaseView, TokensView,
};
use crate::outside::{
    base64url_bytes, decode_base64url, format_time, parse_time, rfc3339_text, rfc3339_time,
    Timestamp, FIRST_DATED, FIRST_SECOND, LAST_DATED, LAST_SECOND,
};
use crate::text::{
    chars_of, decimal, find_char, first_pos, lemma_first_pos, lemma_first_pos_is, number_text, pieces, text_between,
    text_eq,
};
use crate::urls::{provider, provider_missing, user_agent, user_agent_view};
use vstd::prelude::*;
use vstd::string::*;

verus! {

/// The second of the parts of a token between its dots.
pub open spec fn claims_segment(token: Seq<char>) -> Option<Seq<char>> {
    if pieces(token, '.').len() >= 2 {
        Some(pieces(token, '.')[1])
    } else {
        None
    }
}

/// The second of the parts of a token between its dots.
fn find_segment(token: &str) -> (segment: Option<String>)
    ensures
        opt_string(segment) == claims_segment(token@),
{
    let chars = chars_of(token);
    let first = find_char(&chars, '.', 0);
    proof {
        assert(chars@.skip(0) =~= token@);
        lemma_first_pos(token@, '.');
    }
    if first == chars.len() {
        assert(pieces(token@, '.') =~= seq![token@]);
        return None;
    }
    let second = find_char(&chars, '.', first + 1);
    let segment = text_between(&chars, first + 1, second);
    proof {
        let rest = token@.skip(first + 1);
        lemma_first_pos(rest, '.');
        let at = first_pos(rest, '.');
        assert(segment@ =~= rest.take(at));
        let tail = pieces(rest, '.');
        if at < rest.len() {
            assert(tail[0] == rest.take(at));
        } else {
            assert(rest.take(at) =~= rest);
        }
        assert(pieces(token@, '.')[1] == tail[0]);
    }
    Some(segment)
}

/// The claims of a token: what its second part says, read as base64 and JSON.
pub open spec fn token_claims(token: Seq<char>) -> Option<JsonView> {
    match claims_segment(token) {
        None => None,
        Some(segment) => match base64url_bytes(segment) {
            None => None,
            Some(bytes) => match parsed_bytes(bytes) {
                Ok(claims) => Some(claims),
                Err(_) => None,
            },
        },
    }
}

/// The claims of a token: what its second part says, read as base64 and JSON.
pub fn decode_jwt(token: &str) -> (claims: Option<Json>)
    ensures
        token_claims(token@) == (match claims {
            Some(claims) => Some(claims@),
            None => None,
        }),
{
    let segment = match find_segment(token) {
        Some(segment) => segment,
        None => {
            return None;
        },
    };
    let bytes = match decode_base64url(segment.as_str()) {
        Some(bytes) => bytes,
        None => {
            return None;
        },
    };
    match parse_json_bytes(bytes.as_slice()) {
        Ok(claims) => Some(claims),
        Err(_) => None,
    }
}

/// The claims of the token in the field `key` of an answer; null if there are none.
pub open spec fn claims_at(token: JsonView, key: Seq<char>) -> JsonView {
    match token.str_at(key) {
        Some(text) => or_default(token_claims(text), JsonView::Null),
        None => JsonView::Null,
    }
}

/// The claims of the token in the field `key` of an answer; null if there are none.
fn read_claims(token: &Json, key: &str) -> (claims: Json)
    ensures
        claims@ == claims_at(token@, key@),
{
    match token.str_at(key) {
        Some(text) => match decode_jwt(text) {
            Some(claims) => claims,
            None => Json::Null,
        },
        None => Json::Null,
    }
}

/// `fields` with a value for `key`, if there is one that is not null.
pub open spec fn with_known(
    fields: Map<Seq<char>, JsonView>,
    key: Seq<char>,
    value: Option<JsonView>,
) -> Map<Seq<char>, JsonView> {
    match value {
        Some(value) => if value is Null {
            fields
        } else {
            fields.insert(key, value)
        },
        None => fields,
    }
}

/// What the claims of an identity token and an access token say of who an account belongs to.
pub open spec fn metadata_of(id: JsonView, access: JsonView) -> Map<Seq<char>, JsonView> {
    let auth = or_default(id.get("https://api.openai.com/auth"@), JsonView::Null);
    let profile = or_default(id.get("https://api.openai.com/profile"@), JsonView::Null);
    let user = or_view(
        auth.get("user_id"@),
        or_view(auth.get("chatgpt_user_id"@), access.get("sub"@)),
    );
    let account = or_view(auth.get("chatgpt_account_id"@), auth.get("account_id"@));
    with_known(
        with_known(
            with_known(
                with_known(
                    with_known(no_fields(), "email"@, id.get("email"@)),
                    "userId"@,
                    user,
                ),
                "accountId"@,
                account,
            ),
            "planType"@,
            auth.get("chatgpt_plan_type"@),
        ),
        "profileName"@,
        profile.get("name"@),
    )
}

/// Gives `map` a value for `key`, if there is one that is not null.
fn insert_known(map: &mut JsonMap, key: &str, value: Option<&Json>)
    ensures
        final(map)@ == with_known(old(map)@, key@, opt_view(value)),
{
    if let Some(value) = value {
        if !value.is_null() {
            map.insert(key, value.clone());
        }
    }
}

/// What the claims of an identity token and an access token say of who an account belongs to.
pub fn metadata_from_claims(id: &Json, access: &Json) -> (metadata: AccountMetadata)
    ensures
        metadata@ == metadata_of(id@, access@),
{
    let none = Json::Null;
    let auth = match id.get("https://api.openai.com/auth") {
        Some(auth) => auth,
        None => &none,
    };
    let profile = match id.get("https://api.openai.com/profile") {
        Some(profile) => profile,
        None => &none,
    };
    let user = match auth.get("user_id") {
        Some(user) => Some(user),
        None => match auth.get("chatgpt_user_id") {
            Some(user) => Some(user),
            None => access.get("sub"),
        },
    };
    let account = match auth.get("chatgpt_account_id") {
        Some(account) => Some(account),
        None => auth.get("account_id"),
    };
    let mut values = JsonMap::new();
    insert_known(&mut values, "email", id.get("email"));
    insert_known(&mut values, "userId", user);
    insert_known(&mut values, "accountId", account);
    insert_known(&mut values, "planType", auth.get("chatgpt_plan_type"));
    insert_known(&mut values, "profileName", profile.get("name"));
    AccountMetadata { values }
}

/// What the tokens of an answer say of who an account belongs to.
pub open spec fn token_metadata(token: JsonView) -> Map<Seq<char>, JsonView> {
    metadata_of(claims_at(token, "id_token"@), claims_at(token, "access_token"@))
}

/// What the tokens of an answer say of who an account belongs to.
pub fn metadata_from_tokens(token: &Json) -> (metadata: AccountMetadata)
    ensures
        metadata@ == token_metadata(token@),
{
    let id = read_claims(token, "id_token");
    let access = read_claims(token, "access_token");
    metadata_from_claims(&id, &access)
}

/// The number of seconds that an answer says its tokens last.
pub open spec fn expires_in(token: JsonView) -> Option<i64> {
    match token.get("expires_in"@) {
        Some(seconds) => seconds.i64(),
        None => None,
    }
}

/// Whether the end of the tokens of an answer that came at `now` can be written down.
pub open spec fn expiry_fits(token: JsonView, now: Timestamp) -> bool {
    &&& now.in_range()
    &&& match expires_in(token) {
        Some(seconds) => FIRST_SECOND <= now.secs + seconds <= LAST_SECOND,
        None => now.secs + 3000 <= LAST_SECOND,
    }
}

/// Whether the end of the tokens of an answer that came at `now` can be written down.
pub fn can_expire(token: &Json, now: Timestamp) -> (fits: bool)
    ensures
        fits == expiry_fits(token@, now),
{
    if !(FIRST_SECOND <= now.secs && now.secs <= LAST_SECOND && now.nanos < 1_000_000_000) {
        return false;
    }
    let seconds = match token.get("expires_in") {
        Some(seconds) => seconds.as_i64(),
        None => None,
    };
    match seconds {
        Some(seconds) => {
            let end = now.secs as i128 + seconds as i128;
            FIRST_SECOND as i128 <= end && end <= LAST_SECOND as i128
        },
        None => now.secs <= LAST_SECOND - 3000,
    }
}

/// When the tokens of an answer that came at `now` end: as it says, or else as the access token's
/// claims say, or else fifty minutes later.
pub open spec fn expiry(token: JsonView, exp: Option<i64>, now: Timestamp) -> Timestamp {
    match expires_in(token) {
        Some(seconds) => Timestamp { secs: (now.secs + seconds) as i64, nanos: now.nanos },
        None => match exp {
            Some(exp) if FIRST_SECOND <= exp <= LAST_SECOND => Timestamp { secs: exp, nanos: 0 },
            _ => Timestamp { secs: (now.secs + 3000) as i64, nanos: now.nanos },
        },
    }
}

/// Tokens after an answer, without their end.
pub open spec fn renewed_tokens(tokens: TokensView, token: JsonView) -> TokensView {
    TokensView {
        access_token: or_default(token.str_at("access_token"@), tokens.access_token),
        refresh_token: or_default(token.str_at("refresh_token"@), tokens.refresh_token),
        id_token: or_default(token.str_at("id_token"@), tokens.id_token),
        token_type: or_default(
            token.str_at("token_type"@),
            if tokens.token_type.len() == 0 {
                "Bearer"@
            } else {
                tokens.token_type
            },
        ),
        ..tokens
    }
}

/// An account after an answer with tokens that came at `now`: `exp` is the end that the access
/// token's claims give, and `metadata` what the tokens say of who the account belongs to.
pub open spec fn with_token(
    account: AccountView,
    token: JsonView,
    exp: Option<i64>,
    metadata: Map<Seq<char>, JsonView>,
    now: Timestamp,
) -> AccountView {
    let end = expiry(token, exp, now);
    AccountView {
        tokens: TokensView {
            expires_at: rfc3339_text(end.secs, end.nanos),
            ..renewed_tokens(account.tokens, token)
        },
        metadata: account.metadata.union_prefer_right(metadata),
        ..account
    }
}

/// Puts the text of the field `key` in place of `text`, if there is one.
fn renew(text: &mut String, token: &Json, key: &str)
    ensures
        final(text)@ == or_default(token@.str_at(key@), old(text)@),
{
    if let Some(value) = token.str_at(key) {
        *text = value.to_owned();
    }
}

/// Takes over the tokens of an answer, without their end.
fn renew_tokens(account: &mut Account, token: &Json)
    ensures
        final(account)@ == (AccountView {
            tokens: renewed_tokens(old(account)@.tokens, token@),
            ..old(account)@
        }),
{
    renew(&mut account.tokens.access_token, token, "access_token");
    renew(&mut account.tokens.refresh_token, token, "refresh_token");
    renew(&mut account.tokens.id_token, token, "id_token");
    match token.str_at("token_type") {
        Some(kind) => {
            account.tokens.token_type = kind.to_owned();
        },
        None => {
            if account.tokens.token_type.as_str().is_empty() {
                account.tokens.token_type = "Bearer".to_owned();
            }
        },
    }
}

/// Takes over an answer with tokens that came at `now`: `exp` is the end that the access token's
/// claims give, and `metadata` what the tokens say of who the account belongs to.
pub fn apply_token_parts(
    account: &mut Account,
    token: &Json,
    exp: Option<i64>,
    metadata: AccountMetadata,
    now: Timestamp,
)
    requires
        expiry_fits(token@, now),
    ensures
        final(account)@ == with_token(old(account)@, token@, exp, metadata@, now),
        expiry(token@, exp, now).is_dated() ==> end_of(Some(final(account)@)) == Some(
            expiry(token@, exp, now).in_millis(),
        ),
{
    renew_tokens(account, token);
    let seconds = match token.get("expires_in") {
        Some(seconds) => seconds.as_i64(),
        None => None,
    };
    let end = match seconds {
        Some(seconds) => Timestamp { secs: now.secs + seconds, nanos: now.nanos },
        None => match exp {
            Some(exp) if FIRST_SECOND <= exp && exp <= LAST_SECOND => Timestamp {
                secs: exp,
                nanos: 0,
            },
            _ => Timestamp { secs: now.secs + 3000, nanos: now.nanos },
        },
    };
    account.tokens.expires_at = format_time(end);
    account.metadata.merge(metadata);
}

/// The end that the claims of an access token give.
pub open spec fn claimed_end(token: Seq<char>) -> Option<i64> {
    match token_claims(token) {
        Some(claims) => match claims.get("exp"@) {
            Some(exp) => exp.i64(),
            None => None,
        },
        None => None,
    }
}

/// The end that the claims of an access token give.
fn read_end(token: &str) -> (exp: Option<i64>)
    ensures
        exp == claimed_end(token@),
{
    match decode_jwt(token) {
        Some(claims) => match claims.get("exp") {
            Some(exp) => exp.as_i64(),
            None => None,
        },
        None => None,
    }
}

/// An account after an answer with tokens that came at `now`.
pub open spec fn with_token_response(
    account: AccountView,
    token: JsonView,
    now: Timestamp,
) -> AccountView {
    with_token(
        account,
        token,
        claimed_end(renewed_tokens(account.tokens, token).access_token),
        token_metadata(token),
        now,
    )
}

/// Whether an answer that came at `now` says that its tokens last for more than five minutes, and
/// until a year of four digits at most.
pub open spec fn lasts(token: JsonView, now: Timestamp) -> bool {
    &&& expires_in(token) matches Some(seconds) && seconds > 300
    &&& FIRST_DATED <= now.secs + expires_in(token)->0 <= LAST_DATED
}

/// Whether the access token of an account can be used at `now` without anything that comes before.
pub open spec fn is_usable(account: AccountView, now: Timestamp) -> bool {
    access_of(Some(account), end_of(Some(account)), now) is Use
}

/// Takes over an answer with tokens that came at `now`. Where it has an access token that lasts, that
/// one can be used.
pub fn apply_token_response(account: &mut Account, token: &Json, now: Timestamp)
    requires
        expiry_fits(token@, now),
    ensures
        final(account)@ == with_token_response(old(account)@, token@, now),
        lasts(token@, now) ==> end_of(Some(final(account)@)) == Some(
            expiry(token@, None, now).in_millis(),
        ),
        lasts(token@, now) && final(account)@.tokens.access_token.len() > 0
            && final(account)@.status != "needs_reauth"@ ==> is_usable(final(account)@, now),
{
    let exp = match token.str_at("access_token") {
        Some(access) => read_end(access),
        None => read_end(account.tokens.access_token.as_str()),
    };
    let metadata = metadata_from_tokens(token);
    apply_token_parts(account, token, exp, metadata, now);
    proof {
        if lasts(token@, now) && account@.tokens.access_token.len() > 0 && account@.status
            != "needs_reauth"@ {
            law_lasting_tokens_are_used(account@, token@, exp, now);
        }
    }
}

/// The message of a failed request for tokens.
pub open spec fn error_message_of(document: JsonView) -> Option<Seq<char>> {
    match or_view(
        document.get("error_description"@),
        or_view(
            document.get2("error"@, "message"@),
            or_view(document.get("error"@), document.get("message"@)),
        ),
    ) {
        Some(message) => message.str(),
        None => None,
    }
}

/// The message of a failed request for tokens.
pub fn error_message(document: &Json) -> (message: Option<String>)
    ensures
        opt_string(message) == error_message_of(document@),
{
    let found = match document.get("error_description") {
        Some(found) => Some(found),
        None => match document.get2("error", "message") {
            Some(found) => Some(found),
            None => match document.get("error") {
                Some(found) => Some(found),
                None => document.get("message"),
            },
        },
    };
    match found {
        Some(found) => match found.as_str() {
            Some(text) => Some(text.to_owned()),
            None => None,
        },
        None => None,
    }
}

/// The message in the answer to a failed request for tokens.
pub open spec fn token_error_of(text: Seq<char>) -> Option<Seq<char>> {
    match parsed(text) {
        Ok(document) => error_message_of(document),
        Err(_) => None,
    }
}

/// The message in the answer to a failed request for tokens.
pub fn token_error(text: &str) -> (message: Option<String>)
    ensures
        opt_string(message) == token_error_of(text@),
{
    match parse_json(text) {
        Ok(document) => error_message(&document),
        Err(_) => None,
    }
}

/// The nanoseconds from `now` to `time`. A leap second that one of them is in counts only where the
/// way from the earlier to the later time of day leads through its end.
pub open spec fn nanos_until(time: Timestamp, now: Timestamp) -> int {
    let then = (time.secs as int) % 86400;
    let here = (now.secs as int) % 86400;
    time.total_nanos() - now.total_nanos() + if then > here && now.nanos >= 1_000_000_000 {
        1_000_000_000int
    } else if then < here && time.nanos >= 1_000_000_000 {
        -1_000_000_000int
    } else {
        0
    }
}

/// Whether less than five minutes are left from `now` to `time`.
pub open spec fn ends_soon(time: Timestamp, now: Timestamp) -> bool {
    nanos_until(time, now) < 300_000_000_000
}

/// The second of the day.
fn second_of_day(secs: i64) -> (second: i64)
    ensures
        second == (secs as int) % 86400,
{
    let rest = secs % 86400;
    if rest < 0 {
        rest + 86400
    } else {
        rest
    }
}

/// Whether less than five minutes are left from `now` to `time`.
pub fn must_refresh(time: Timestamp, now: Timestamp) -> (soon: bool)
    ensures
        soon == ends_soon(time, now),
{
    let left = (time.secs as i128 - now.secs as i128) * 1_000_000_000 + (time.nanos as i128
        - now.nanos as i128);
    let then = second_of_day(time.secs);
    let here = second_of_day(now.secs);
    let leap: i128 = if then > here && now.nanos >= 1_000_000_000 {
        1_000_000_000
    } else if then < here && time.nanos >= 1_000_000_000 {
        -1_000_000_000
    } else {
        0
    };
    left + leap < 300_000_000_000
}

/// What comes before a request in the name of an account.
#[derive(Debug)]
pub enum AccessStep {
    /// The access token can be used.
    Use,
    /// The tokens are to be refreshed first.
    Refresh,
    /// The account is to be marked as one that must log in again, for this reason, and the request
    /// fails.
    Mark(String, AppError),
    /// The request fails.
    Fail(AppError),
}

/// What comes before a request, as contracts speak of it.
pub enum AccessView {
    Use,
    Refresh,
    Mark(Seq<char>, ErrorView),
    Fail(ErrorView),
}

impl View for AccessStep {
    type V = AccessView;

    open spec fn view(&self) -> AccessView {
        match self {
            AccessStep::Use => AccessView::Use,
            AccessStep::Refresh => AccessView::Refresh,
            AccessStep::Mark(reason, error) => AccessView::Mark(reason@, error@),
            AccessStep::Fail(error) => AccessView::Fail(error@),
        }
    }
}

/// What comes before a request in the name of an account whose tokens end at `expires`.
pub open spec fn access_of(
    account: Option<AccountView>,
    expires: Option<Timestamp>,
    now: Timestamp,
) -> AccessView {
    match account {
        None => AccessView::Fail(auth_error("Account was removed"@)),
        Some(account) => if account.status == "needs_reauth"@ {
            AccessView::Fail(auth_error("Account requires re-authentication"@))
        } else if account.tokens.access_token.len() == 0 {
            AccessView::Mark(
                "Missing access token"@,
                auth_error("Account is missing an access token"@),
            )
        } else if expires is Some && ends_soon(expires->0, now)
            && account.tokens.refresh_token.len() > 0 {
            AccessView::Refresh
        } else {
            AccessView::Use
        },
    }
}

/// The contents of an optional account.
pub open spec fn opt_account(account: Option<&Account>) -> Option<AccountView> {
    match account {
        Some(account) => Some(account@),
        None => None,
    }
}

/// What comes before a request in the name of an account whose tokens end at `expires`.
pub fn access_step_at(
    account: Option<&Account>,
    expires: Option<Timestamp>,
    now: Timestamp,
) -> (step: AccessStep)
    ensures
        step@ == access_of(opt_account(account), expires, now),
{
    let account = match account {
        Some(account) => account,
        None => {
            return AccessStep::Fail(AppError::auth("Account was removed"));
        },
    };
    if text_eq(account.status.as_str(), "needs_reauth") {
        return AccessStep::Fail(AppError::auth("Account requires re-authentication"));
    }
    if account.tokens.access_token.as_str().is_empty() {
        return AccessStep::Mark(
            "Missing access token".to_owned(),
            AppError::auth("Account is missing an access token"),
        );
    }
    let soon = match expires {
        Some(expires) => must_refresh(expires, now),
        None => false,
    };
    if soon && !account.tokens.refresh_token.as_str().is_empty() {
        AccessStep::Refresh
    } else {
        AccessStep::Use
    }
}

/// When the tokens of an account end, as far as that is known.
pub open spec fn end_of(account: Option<AccountView>) -> Option<Timestamp> {
    match account {
        Some(account) => rfc3339_time(account.tokens.expires_at),
        None => None,
    }
}

/// What comes before a request in the name of an account: a token that ends within five minutes is
/// refreshed if it can be.
pub fn access_step(account: Option<&Account>, now: Timestamp) -> (step: AccessStep)
    ensures
        step@ == access_of(opt_account(account), end_of(opt_account(account)), now),
{
    let expires = match account {
        Some(account) => parse_time(account.tokens.expires_at.as_str()),
        None => None,
    };
    access_step_at(account, expires, now)
}

/// A request for fresh tokens.
#[derive(Debug)]
pub struct RefreshRequest {
    pub url: String,
    pub user_agent: String,
    pub body: Json,
}

/// What comes of the wish to refresh tokens.
#[derive(Debug)]
pub enum RefreshStep {
    /// The tokens are still good.
    Valid,
    /// Fresh ones are to be asked for.
    Send(RefreshRequest),
    /// The account is to be marked as one that must log in again, for this reason, and refreshing
    /// fails.
    Mark(String, AppError),
    /// Refreshing fails.
    Fail(AppError),
}

/// What comes of the wish to refresh tokens, as contracts speak of it.
pub enum RefreshView {
    Valid,
    Send(Seq<char>, Seq<char>, JsonView),
    Mark(Seq<char>, ErrorView),
    Fail(ErrorView),
}

impl View for RefreshStep {
    type V = RefreshView;

    open spec fn view(&self) -> RefreshView {
        match self {
            RefreshStep::Valid => RefreshView::Valid,
            RefreshStep::Send(request) => RefreshView::Send(
                request.url@,
                request.user_agent@,
                request.body@,
            ),
            RefreshStep::Mark(reason, error) => RefreshView::Mark(reason@, error@),
            RefreshStep::Fail(error) => RefreshView::Fail(error@),
        }
    }
}

/// The body of a request for fresh tokens.
pub open spec fn refresh_body(client_id: Seq<char>, refresh_token: Seq<char>) -> JsonView {
    JsonView::Object(
        no_fields().insert("client_id"@, json_str(client_id)).insert(
            "grant_type"@,
            json_str("refresh_token"@),
        ).insert("refresh_token"@, json_str(refresh_token)),
    )
}

/// What comes of the wish to refresh the tokens of an account that end at `expires`. Without force
/// tokens that last for five minutes and more are left alone.
pub open spec fn refresh_of(
    config: Config,
    account: Option<AccountView>,
    expires: Option<Timestamp>,
    force: bool,
    now: Timestamp,
) -> RefreshView {
    match account {
        None => RefreshView::Fail(auth_error("Account was removed"@)),
        Some(account) => if !force && expires is Some && !ends_soon(expires->0, now) {
            RefreshView::Valid
        } else {
            match config.provider(account.provider) {
                None => RefreshView::Fail(provider_missing(account.provider)),
                Some(provider) => if provider.oauth.token_url@.len() == 0
                    || provider.oauth.client_id@.len() == 0 || account.tokens.refresh_token.len()
                    == 0 {
                    RefreshView::Mark(
                        "Token refresh is not configured"@,
                        auth_error("Token refresh is not configured"@),
                    )
                } else {
                    RefreshView::Send(
                        provider.oauth.token_url@,
                        user_agent_view(provider),
                        refresh_body(provider.oauth.client_id@, account.tokens.refresh_token),
                    )
                },
            }
        },
    }
}

/// What comes of the wish to refresh the tokens of an account that end at `expires`. Without force
/// tokens that last for five minutes and more are left alone.
pub fn refresh_step_at(
    config: &Config,
    account: Option<&Account>,
    expires: Option<Timestamp>,
    force: bool,
    now: Timestamp,
) -> (step: RefreshStep)
    ensures
        step@ == refresh_of(*config, opt_account(account), expires, force, now),
{
    let account = match account {
        Some(account) => account,
        None => {
            return RefreshStep::Fail(AppError::auth("Account was removed"));
        },
    };
    if !force {
        if let Some(expires) = expires {
            if !must_refresh(expires, now) {
                return RefreshStep::Valid;
            }
        }
    }
    let provider = match provider(config, account.provider.as_str()) {
        Ok(provider) => provider,
        Err(error) => {
            return RefreshStep::Fail(error);
        },
    };
    if provider.oauth.token_url.as_str().is_empty() || provider.oauth.client_id.as_str().is_empty()
        || account.tokens.refresh_token.as_str().is_empty() {
        return RefreshStep::Mark(
            "Token refresh is not configured".to_owned(),
            AppError::auth("Token refresh is not configured"),
        );
    }
    let mut body = JsonMap::new();
    body.insert("client_id", Json::text(provider.oauth.client_id.as_str()));
    body.insert("grant_type", Json::text("refresh_token"));
    body.insert("refresh_token", Json::text(account.tokens.refresh_token.as_str()));
    RefreshStep::Send(
        RefreshRequest {
            url: provider.oauth.token_url.clone(),
            user_agent: user_agent(provider),
            body: Json::Object(body),
        },
    )
}

/// What comes of the wish to refresh the tokens of an account.
pub fn refresh_step(config: &Config, account: Option<&Account>, force: bool, now: Timestamp) -> (step:
    RefreshStep)
    ensures
        step@ == refresh_of(
            *config,
            opt_account(account),
            end_of(opt_account(account)),
            force,
            now,
        ),
{
    let expires = match account {
        Some(account) => parse_time(account.tokens.expires_at.as_str()),
        None => None,
    };
    refresh_step_at(config, account, expires, force, now)
}

/// What the answer to a request for fresh tokens comes to.
#[derive(Debug)]
pub enum RefreshReply {
    /// Fresh tokens.
    Token(Json),
    /// The account is to be marked as one that must log in again, for this reason, and refreshing
    /// fails.
    Mark(String, AppError),
    /// Refreshing fails.
    Fail(AppError),
}

/// What the answer to a request for fresh tokens comes to, as contracts speak of it.
pub enum ReplyView {
    Token(JsonView),
    Mark(Seq<char>, ErrorView),
    Fail(ErrorView),
}

impl View for RefreshReply {
    type V = ReplyView;

    open spec fn view(&self) -> ReplyView {
        match self {
            RefreshReply::Token(token) => ReplyView::Token(token@),
            RefreshReply::Mark(reason, error) => ReplyView::Mark(reason@, error@),
            RefreshReply::Fail(error) => ReplyView::Fail(error@),
        }
    }
}

/// What the answer to a request for fresh tokens comes to, with what reading it as JSON gives.
pub open spec fn refresh_reply_of(status: u16, document: Result<JsonView, Seq<char>>) -> ReplyView {
    if is_success(status) {
        match document {
            Ok(token) => ReplyView::Token(token),
            Err(message) => ReplyView::Fail(error_view(500, message)),
        }
    } else {
        let said = match document {
            Ok(document) => error_message_of(document),
            Err(_) => None,
        };
        let message = or_default(
            said,
            "Token refresh failed with HTTP "@ + decimal(status as nat),
        );
        if status == 400 || status == 401 {
            ReplyView::Mark(message, auth_error(message))
        } else {
            ReplyView::Fail(error_view(status, message))
        }
    }
}

/// The outcome of reading JSON, as contracts speak of it.
pub open spec fn document_view(document: Result<Json, String>) -> Result<JsonView, Seq<char>> {
    match document {
        Ok(json) => Ok(json@),
        Err(message) => Err(message@),
    }
}

/// What the answer to a request for fresh tokens comes to, with what reading it as JSON gives: a
/// refresh token that is not good any more means that the account must log in again.
pub fn refresh_reply_with(status: u16, document: Result<Json, String>) -> (reply: RefreshReply)
    ensures
        reply@ == refresh_reply_of(status, document_view(document)),
{
    if success(status) {
        return match document {
            Ok(token) => RefreshReply::Token(token),
            Err(message) => RefreshReply::Fail(AppError::internal(message.as_str())),
        };
    }
    let said = match document {
        Ok(document) => error_message(&document),
        Err(_) => None,
    };
    let message = match said {
        Some(message) => message,
        None => {
            let mut message = "Token refresh failed with HTTP ".to_owned();
            message.append(number_text(status as u64).as_str());
            message
        },
    };
    if status == 400 || status == 401 {
        let error = AppError::auth(message.as_str());
        RefreshReply::Mark(message, error)
    } else {
        RefreshReply::Fail(AppError::new(status, message.as_str()))
    }
}

/// What the answer to a request for fresh tokens comes to.
pub fn refresh_reply(status: u16, text: &str) -> (reply: RefreshReply)
    ensures
        reply@ == refresh_reply_of(status, parsed(text@)),
{
    refresh_reply_with(status, parse_json(text))
}

/// An account that has logged in or refreshed its tokens.
pub open spec fn reactivated(account: AccountView, time: Seq<char>) -> AccountView {
    AccountView { status: "active"@, last_error: None, updated_at: time, ..account }
}

/// Marks an account as one that has logged in or refreshed its tokens.
pub fn reactivate(account: &mut Account, time: &str)
    ensures
        final(account)@ == reactivated(old(account)@, time@),
{
    account.status = "active".to_owned();
    account.last_error = None;
    account.updated_at = time.to_owned();
}

impl Database {
    /// Takes over fresh tokens, which came at `now`, for the first account with this identifier.
    pub fn refresh_account(&mut self, id: &str, token: &Json, now: Timestamp, time: &str) -> (result:
        Result<(), AppError>)
        requires
            expiry_fits(token@, now),
        ensures
            match position(old(self)@.accounts, id@, 0) {
                Some(at) => {
                    &&& result is Ok
                    &&& final(self)@ == (DatabaseView {
                        accounts: old(self)@.accounts.update(
                            at,
                            reactivated(
                                with_token_response(old(self)@.accounts[at], token@, now),
                                time@,
                            ),
                        ),
                        ..old(self)@
                    })
                    &&& lasts(token@, now) && final(self)@.accounts[at].tokens.access_token.len()
                        > 0 ==> is_usable(final(self)@.accounts[at], now)
                },
                None => {
                    &&& result matches Err(error) && error@ == auth_error("Account was removed"@)
                    &&& final(self)@ == old(self)@
                },
            },
    {
        let at = match self.index(id) {
            Some(at) => at,
            None => {
                return Err(AppError::auth("Account was removed"));
            },
        };
        let ghost before = self.accounts@;
        apply_token_response(&mut self.accounts[at], token, now);
        reactivate(&mut self.accounts[at], time);
        assert(account_views(self.accounts@) =~= account_views(before).update(
            at as int,
            self.accounts@[at as int]@,
        ));
        proof {
            let stored = self.accounts@[at as int]@;
            if lasts(token@, now) && stored.tokens.access_token.len() > 0 {
                reveal_strlit("active");
                reveal_strlit("needs_reauth");
                assert("active"@.len() != "needs_reauth"@.len());
                law_lasting_tokens_are_used(stored, token@, None, now);
            }
        }
        Ok(())
    }
}

/// Tokens that are said to last for more than five minutes can be used when they have come; those
/// that are said to last for less are refreshed first, if they can be.
pub proof fn law_lasting_tokens_are_used(
    account: AccountView,
    token: JsonView,
    exp: Option<i64>,
    now: Timestamp,
)
    requires
        now.in_range(),
        end_of(Some(account)) == Some(expiry(token, exp, now).in_millis()),
        expires_in(token) is Some,
        i64::MIN <= now.secs + expires_in(token)->0 <= i64::MAX,
        account.tokens.access_token.len() > 0,
        account.status != "needs_reauth"@,
    ensures
        expires_in(token)->0 > 300 ==> is_usable(account, now),
        expires_in(token)->0 < 300 && account.tokens.refresh_token.len() > 0 ==> access_of(
            Some(account),
            end_of(Some(account)),
            now,
        ) is Refresh,
{
}

/// Tokens that an answer does not mention stay; one without a refresh token leaves the old one good.
pub proof fn law_refresh_token_is_kept(account: AccountView, token: JsonView, now: Timestamp)
    ensures
        token.str_at("refresh_token"@) is None ==> with_token_response(
            account,
            token,
            now,
        ).tokens.refresh_token == account.tokens.refresh_token,
        token.str_at("id_token"@) is None ==> with_token_response(
            account,
            token,
            now,
        ).tokens.id_token == account.tokens.id_token,
        with_token_response(account, token, now).id == account.id,
        with_token_response(account, token, now).port == account.port,
{
}

/// A refresh token that is refused leads to a new login, and to no other outcome.
pub proof fn law_refused_token_needs_login(status: u16, document: Result<JsonView, Seq<char>>)
    ensures
        refresh_reply_of(status, document) is Mark <==> status == 400 || status == 401,
        refresh_reply_of(status, document) matches ReplyView::Mark(_, error) ==> error.auth
            && error.status == 401,
{
}

/// New tokens leave an account where it is: its identifier, its provider and its port stay, and it can
/// be used again.
pub proof fn law_refresh_keeps_the_address(
    account: AccountView,
    token: JsonView,
    now: Timestamp,
    time: Seq<char>,
)
    ensures
        ({
            let after = reactivated(with_token_response(account, token, now), time);
            &&& after.id == account.id
            &&& after.provider == account.provider
            &&& after.port == account.port
            &&& after.created_at == account.created_at
            &&& after.status == "active"@
            &&& after.last_error is None
        }),
{
}

/// The claims of a token are read from the part between its first and its second dot.
pub proof fn law_claims_are_the_second_part(head: Seq<char>, body: Seq<char>, tail: Seq<char>)
    requires
        forall|i: int| 0 <= i < head.len() ==> head[i] != '.',
        forall|i: int| 0 <= i < body.len() ==> body[i] != '.',
    ensures
        claims_segment(head) is None,
        claims_segment(head + seq!['.'] + body) == Some(body),
        claims_segment(head + seq!['.'] + body + seq!['.'] + tail) == Some(body),
{
    lemma_first_pos_is(head, '.', head.len() as int);
    let two = head + seq!['.'] + body;
    lemma_first_pos_is(two, '.', head.len() as int);
    assert(two.skip(head.len() as int + 1) =~= body);
    lemma_first_pos_is(body, '.', body.len() as int);
    assert(pieces(body, '.') =~= seq![body]);
    assert(pieces(two, '.')[1] == body);
    let three = head + seq!['.'] + body + seq!['.'] + tail;
    lemma_first_pos_is(three, '.', head.len() as int);
    let rest = body + seq!['.'] + tail;
    assert(three.skip(head.len() as int + 1) =~= rest);
    lemma_first_pos_is(rest, '.', body.len() as int);
    assert(rest.take(body.len() as int) =~= body);
    assert(pieces(rest, '.')[0] == body);
    assert(pieces(three, '.')[1] == pieces(rest, '.')[0]);
}

/// The value that identity claims give for a name, unless it is null.
pub open spec fn told(value: Option<JsonView>) -> Option<JsonView> {
    if value == Some(JsonView::Null) {
        None
    } else {
        value
    }
}

/// Who an account belongs to is read from the claims of its tokens: the email, the user, the account,
/// the plan and the name each from its own claim, and nothing else; a claim that is null counts as
/// absent.
pub proof fn law_identity_is_read_from_the_claims(id: JsonView, access: JsonView, key: Seq<char>)
    ensures
        ({
            let known = JsonView::Object(metadata_of(id, access));
            let auth = "https://api.openai.com/auth"@;
            &&& known.get("email"@) == told(id.get("email"@))
            &&& id.get2(auth, "chatgpt_account_id"@) is Some ==> known.get("accountId"@) == told(
                id.get2(auth, "chatgpt_account_id"@),
            )
            &&& id.get2(auth, "chatgpt_account_id"@) is None ==> known.get("accountId"@) == told(
                id.get2(auth, "account_id"@),
            )
            &&& id.get2(auth, "user_id"@) is Some ==> known.get("userId"@) == told(
                id.get2(auth, "user_id"@),
            )
            &&& id.get2(auth, "user_id"@) is None && id.get2(auth, "chatgpt_user_id"@) is Some
                ==> known.get("userId"@) == told(id.get2(auth, "chatgpt_user_id"@))
            &&& id.get2(auth, "user_id"@) is None && id.get2(auth, "chatgpt_user_id"@) is None
                ==> known.get("userId"@) == told(access.get("sub"@))
            &&& known.get("planType"@) == told(id.get2(auth, "chatgpt_plan_type"@))
            &&& known.get("profileName"@) == told(
                id.get2("https://api.openai.com/profile"@, "name"@),
            )
            &&& known.get(key) is Some ==> key == "email"@ || key == "userId"@ || key
                == "accountId"@ || key == "planType"@ || key == "profileName"@
        }),
{
    reveal_strlit("email");
    reveal_strlit("userId");
    reveal_strlit("accountId");
    reveal_strlit("planType");
    reveal_strlit("profileName");
    assert("email"@.len() == 5 && "userId"@.len() == 6 && "accountId"@.len() == 9);
    assert("planType"@.len() == 8 && "profileName"@.len() == 11);
}

/// The identity of an account comes from its identity token, and its user also from its access token.
pub proof fn law_identity_comes_from_the_tokens(
    token: JsonView,
    identity: JsonView,
    access: JsonView,
)
    requires
        token.str_at("id_token"@) is Some,
        token_claims(token.str_at("id_token"@)->0) == Some(identity),
        token.str_at("access_token"@) is Some ==> token_claims(token.str_at("access_token"@)->0)
            == Some(access),
        token.str_at("access_token"@) is None ==> access is Null,
    ensures
        token_metadata(token) == metadata_of(identity, access),
{
}

/// An answer with tokens replaces each token that it has and leaves every other, and adds to what is
/// known of who the account belongs to; tokens that never had a type are bearer tokens.
pub proof fn law_answer_replaces_what_it_has(account: AccountView, token: JsonView, now: Timestamp)
    ensures
        ({
            let after = with_token_response(account, token, now);
            &&& after.tokens.access_token == if token.str_at("access_token"@) is Some {
                token.str_at("access_token"@)->0
            } else {
                account.tokens.access_token
            }
            &&& after.tokens.refresh_token == if token.str_at("refresh_token"@) is Some {
                token.str_at("refresh_token"@)->0
            } else {
                account.tokens.refresh_token
            }
            &&& after.tokens.id_token == if token.str_at("id_token"@) is Some {
                token.str_at("id_token"@)->0
            } else {
                account.tokens.id_token
            }
            &&& after.tokens.token_type == if token.str_at("token_type"@) is Some {
                token.str_at("token_type"@)->0
            } else if account.tokens.token_type.len() > 0 {
                account.tokens.token_type
            } else {
                "Bearer"@
            }
            &&& after.status == account.status
            &&& after.provider == account.provider
            &&& after.usage_snapshot == account.usage_snapshot
            &&& forall|key: Seq<char>| #[trigger]
                after.metadata.contains_key(key) <==> account.metadata.contains_key(key)
                    || token_metadata(token).contains_key(key)
            &&& forall|key: Seq<char>|
                token_metadata(token).contains_key(key) ==> (#[trigger] after.metadata[key])
                    == token_metadata(token)[key]
            &&& forall|key: Seq<char>|
                account.metadata.contains_key(key) && !token_metadata(token).contains_key(key)
                    ==> (#[trigger] after.metadata[key]) == account.metadata[key]
        }),
{
}

/// Tokens end when the answer says: as many seconds after it came as it gives; or else when the
/// claims of the new access token say; or else after fifty minutes.
pub proof fn law_tokens_end_when_told(account: AccountView, token: JsonView, now: Timestamp)
    requires
        now.in_range(),
    ensures
        ({
            let after = with_token_response(account, token, now).tokens;
            let lasting = match token.get("expires_in"@) {
                Some(seconds) => seconds.i64(),
                None => None,
            };
            let claims = token_claims(after.access_token);
            let claimed = if claims is Some && claims->0.get("exp"@) is Some {
                claims->0.get("exp"@)->0.i64()
            } else {
                None
            };
            &&& lasting is Some && i64::MIN <= now.secs + lasting->0 <= i64::MAX ==> exists|
                end: i64,
            |
                end == now.secs + lasting->0 && after.expires_at == #[trigger] rfc3339_text(
                    end,
                    now.nanos,
                )
            &&& lasting is None && claimed is Some && FIRST_SECOND <= claimed->0 <= LAST_SECOND
                ==> after.expires_at == rfc3339_text(claimed->0, 0)
            &&& lasting is None && (claimed is None || claimed->0 < FIRST_SECOND || claimed->0
                > LAST_SECOND) && now.secs + 3000 <= i64::MAX ==> exists|
                end: i64,
            |
                end == now.secs + 50 * 60 && after.expires_at == #[trigger] rfc3339_text(
                    end,
                    now.nanos,
                )
        }),
{
}

/// Five minutes before its end a token counts as ended.
pub proof fn law_tokens_end_five_minutes_early(time: Timestamp, now: Timestamp)
    requires
        time.nanos < 1_000_000_000,
        now.nanos < 1_000_000_000,
    ensures
        ends_soon(time, now) <==> time.secs * 1_000_000_000 + time.nanos < (now.secs + 5 * 60)
            * 1_000_000_000 + now.nanos,
{
}

/// An account is used if it is there, need not log in again and has an access token that does not
/// end soon or cannot be refreshed; its token is refreshed if it ends soon and can be. In every other
/// case the request fails.
pub proof fn law_access_needs_a_good_token(
    account: Option<AccountView>,
    expires: Option<Timestamp>,
    now: Timestamp,
)
    ensures
        ({
            let ready = account is Some && account->0.status != "needs_reauth"@
                && account->0.tokens.access_token.len() > 0;
            let stale = expires is Some && ends_soon(expires->0, now)
                && account->0.tokens.refresh_token.len() > 0;
            &&& access_of(account, expires, now) is Use <==> ready && !stale
            &&& access_of(account, expires, now) is Refresh <==> ready && stale
            &&& access_of(account, expires, now) is Mark <==> account is Some && account->0.status
                != "needs_reauth"@ && account->0.tokens.access_token.len() == 0
            &&& access_of(account, expires, now) matches AccessView::Fail(error) ==> error.auth
                && error.status == 401 && error.message == if account is None {
                "Account was removed"@
            } else {
                "Account requires re-authentication"@
            }
            &&& access_of(account, expires, now) matches AccessView::Mark(reason, error) ==> reason
                == "Missing access token"@ && error.auth
        }),
{
}

/// Tokens are asked for at the provider of the account, with its client and the refresh token of the
/// account, if they end soon or it is forced; without any of these the account must log in again.
pub proof fn law_refresh_is_asked_of_the_provider(
    config: Config,
    account: AccountView,
    expires: Option<Timestamp>,
    force: bool,
    now: Timestamp,
)
    ensures
        ({
            let provider = config.provider(account.provider);
            let due = force || expires is None || ends_soon(expires->0, now);
            let able = provider is Some && provider->0.oauth.token_url@.len() > 0
                && provider->0.oauth.client_id@.len() > 0 && account.tokens.refresh_token.len() > 0;
            let step = refresh_of(config, Some(account), expires, force, now);
            &&& step is Valid <==> !due
            &&& step is Send <==> due && able
            &&& step is Mark <==> due && provider is Some && !able
            &&& step is Fail <==> due && provider is None
            &&& step matches RefreshView::Send(url, agent, body) ==> {
                &&& url == provider->0.oauth.token_url@
                &&& agent == user_agent_view(provider->0)
                &&& body.str_at("grant_type"@) == Some("refresh_token"@)
                &&& body.str_at("client_id"@) == Some(provider->0.oauth.client_id@)
                &&& body.str_at("refresh_token"@) == Some(account.tokens.refresh_token)
            }
        }),
        refresh_of(config, None, expires, force, now) is Fail,
{
    reveal_strlit("client_id");
    reveal_strlit("grant_type");
    reveal_strlit("refresh_token");
    assert("client_id"@.len() == 9 && "grant_type"@.len() == 10 && "refresh_token"@.len() == 13);
}

/// A successful answer in JSON brings tokens; any other brings none, and a failed one says why as far
/// as its document does.
pub proof fn law_refresh_answer_is_heard(status: u16, document: Result<JsonView, Seq<char>>)
    ensures
        refresh_reply_of(status, document) is Token <==> 200 <= status < 300 && document is Ok,
        200 <= status < 300 && document is Ok ==> refresh_reply_of(status, document)
            == ReplyView::Token(document->Ok_0),
        refresh_reply_of(status, document) matches ReplyView::Fail(error) ==> error.status == if 200
            <= status < 300 {
            500u16
        } else {
            status
        },
        refresh_reply_of(status, document) matches ReplyView::Mark(reason, error) ==> {
            &&& error.message == reason
            &&& document is Ok && document->Ok_0.str_at("error_description"@) is Some ==> reason
                == document->Ok_0.str_at("error_description"@)->0
            &&& document is Err ==> reason == "Token refresh failed with HTTP "@ + decimal(
                status as nat,
            )
        },
        !(200 <= status < 300) && status != 400 && status != 401 && document is Err ==> (
        refresh_reply_of(status, document) matches ReplyView::Fail(error) && error.message
            == "Token refresh failed with HTTP "@ + decimal(status as nat)),
{
}

/// Why a request for tokens failed is told by the first of four fields that is there.
pub proof fn law_failure_is_told_by_the_first_field(document: JsonView)
    ensures
        document.get("error_description"@) is Some ==> error_message_of(document)
            == document.str_at("error_description"@),
        document.get("error_description"@) is None && document.get2("error"@, "message"@) is Some
            ==> error_message_of(document) == document.str_at2("error"@, "message"@),
        document.get("error_description"@) is None && document.get2("error"@, "message"@) is None
            && document.get("error"@) is Some ==> error_message_of(document) == document.str_at(
            "error"@,
        ),
        document.get("error_description"@) is None && document.get("error"@) is None
            ==> error_message_of(document) == document.str_at("message"@),
{
}

/// Claims are read from the token in the field that is asked for, and are null where it is no token.
pub proof fn law_claims_are_read_from_their_field(token: JsonView, key: Seq<char>)
    ensures
        token.str_at(key) is None ==> claims_at(token, key) is Null,
        token.str_at(key) is Some && token_claims(token.str_at(key)->0) is Some ==> claims_at(
            token,
            key,
        ) == token_claims(token.str_at(key)->0)->0,
{
}

/// The end of tokens can be written down wherever the clock and the answer stay in range: it is a
/// question of the sum alone.
pub proof fn law_ends_in_range_can_be_written(token: JsonView, now: Timestamp, seconds: i64)
    requires
        now.in_range(),
        token.get("expires_in"@) is Some,
        token.get("expires_in"@)->0.i64() == Some(seconds),
    ensures
        expiry_fits(token, now) <==> FIRST_SECOND <= now.secs + seconds <= LAST_SECOND,
{
}

}
