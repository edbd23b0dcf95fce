//! HTTP headers: which are handed on, which are added, which never pass.

use crate::config::Provider;
use crate::errors::{error_view, AppError};
use crate::json::{entry_views, is_listing, Json, JsonView};
use crate::model::{metadata_text, Account, AccountView};
use crate::text::{has_prefix, lower, starts_with, text_eq, to_lower};
use crate::urls::{user_agent, user_agent_view};
use vstd::prelude::*;
use vstd::string::*;
use vstd::utf8::encode_utf8;

verus! {

/// Headers with one value for each name. The case of a name makes no difference.
#[derive(Debug)]
pub struct Headers {
    pub entries: Vec<(String, Vec<u8>)>,
}

/// No headers.
pub open spec fn no_headers() -> Map<Seq<char>, Seq<u8>> {
    Map::empty()
}

/// The values of headers by their names in lower case; of more entries for a name the last counts.
pub open spec fn header_map(entries: Seq<(String, Vec<u8>)>) -> Map<Seq<char>, Seq<u8>>
    decreases entries.len(),
{
    if entries.len() == 0 {
        Map::empty()
    } else {
        header_map(entries.drop_last()).insert(lower(entries.last().0@), entries.last().1@)
    }
}

impl View for Headers {
    type V = Map<Seq<char>, Seq<u8>>;

    open spec fn view(&self) -> Map<Seq<char>, Seq<u8>> {
        header_map(self.entries@)
    }
}

/// The bytes of a text.
pub open spec fn text_bytes(text: Seq<char>) -> Seq<u8> {
    encode_utf8(text)
}

/// A copy of bytes.
fn copy_bytes(bytes: &[u8]) -> (copy: Vec<u8>)
    ensures
        copy@ == bytes@,
{
    let mut copy: Vec<u8> = Vec::new();
    let mut i: usize = 0;
    while i < bytes.len()
        invariant
            i <= bytes@.len(),
            copy@ == bytes@.take(i as int),
        decreases bytes@.len() - i,
    {
        copy.push(bytes[i]);
        assert(bytes@.take(i + 1) =~= bytes@.take(i as int).push(bytes@[i as int]));
        i = i + 1;
    }
    assert(bytes@.take(bytes@.len() as int) =~= bytes@);
    copy
}

proof fn lemma_lower_twice(text: Seq<char>)
    ensures
        lower(lower(text)) == lower(text),
{
    assert(lower(lower(text)) =~= lower(text));
}

/// The names of the headers that the proxy sets are in lower case.
pub(crate) proof fn lemma_own_names()
    ensures
        lower("content-type"@) == "content-type"@,
        lower("access-control-allow-origin"@) == "access-control-allow-origin"@,
        lower("access-control-allow-methods"@) == "access-control-allow-methods"@,
        lower("access-control-allow-headers"@) == "access-control-allow-headers"@,
        lower("access-control-max-age"@) == "access-control-max-age"@,
        lower("cache-control"@) == "cache-control"@,
        lower("connection"@) == "connection"@,
        lower("x-accel-buffering"@) == "x-accel-buffering"@,
        lower("authorization"@) == "authorization"@,
        lower("user-agent"@) == "user-agent"@,
        lower("chatgpt-account-id"@) == "chatgpt-account-id"@,
{
    reveal_strlit("content-type");
    reveal_strlit("access-control-allow-origin");
    reveal_strlit("access-control-allow-methods");
    reveal_strlit("access-control-allow-headers");
    reveal_strlit("access-control-max-age");
    reveal_strlit("cache-control");
    reveal_strlit("connection");
    reveal_strlit("x-accel-buffering");
    reveal_strlit("authorization");
    reveal_strlit("user-agent");
    reveal_strlit("chatgpt-account-id");
    assert(lower("content-type"@) =~= "content-type"@);
    assert(lower("access-control-allow-origin"@) =~= "access-control-allow-origin"@);
    assert(lower("access-control-allow-methods"@) =~= "access-control-allow-methods"@);
    assert(lower("access-control-allow-headers"@) =~= "access-control-allow-headers"@);
    assert(lower("access-control-max-age"@) =~= "access-control-max-age"@);
    assert(lower("cache-control"@) =~= "cache-control"@);
    assert(lower("connection"@) =~= "connection"@);
    assert(lower("x-accel-buffering"@) =~= "x-accel-buffering"@);
    assert(lower("authorization"@) =~= "authorization"@);
    assert(lower("user-agent"@) =~= "user-agent"@);
    assert(lower("chatgpt-account-id"@) =~= "chatgpt-account-id"@);
}

impl Headers {
    /// No headers.
    pub fn new() -> (headers: Headers)
        ensures
            headers@ == Map::<Seq<char>, Seq<u8>>::empty(),
    {
        Headers { entries: Vec::new() }
    }

    /// Gives a header a value, in place of the one it had.
    pub fn insert(&mut self, name: &str, value: &[u8])
        ensures
            final(self)@ == old(self)@.insert(lower(name@), value@),
    {
        let small = to_lower(name);
        let mut all: Vec<(String, Vec<u8>)> = Vec::new();
        std::mem::swap(&mut all, &mut self.entries);
        let ghost whole = all@;
        let mut kept: Vec<(String, Vec<u8>)> = Vec::new();
        assert(header_map(whole.take(0)).remove(small@) =~= header_map(kept@));
        for entry in it: all
            invariant
                it.seq() == whole,
                header_map(kept@) == header_map(whole.take(it.index() as int)).remove(small@),
        {
            let ghost i = it.index() as int;
            assert(whole.take(i + 1).drop_last() =~= whole.take(i));
            let ghost before = kept@;
            if !text_eq(to_lower(entry.0.as_str()).as_str(), small.as_str()) {
                kept.push(entry);
                assert(kept@.drop_last() =~= before);
            }
            assert(header_map(kept@) =~= header_map(whole.take(i + 1)).remove(small@));
        }
        let ghost before = kept@;
        let copy = copy_bytes(value);
        kept.push((small, copy));
        proof {
            lemma_lower_twice(name@);
            assert(whole.take(whole.len() as int) =~= whole);
            assert(kept@.drop_last() =~= before);
            assert(header_map(whole).remove(small@).insert(small@, value@) =~= header_map(
                whole,
            ).insert(small@, value@));
        }
        self.entries = kept;
    }

    /// Gives a header a text as its value, in place of the one it had.
    pub fn insert_text(&mut self, name: &str, value: &str)
        ensures
            final(self)@ == old(self)@.insert(lower(name@), text_bytes(value@)),
    {
        self.insert(name, value.as_bytes());
    }

    /// Whether there is a header with this name.
    pub fn contains(&self, name: &str) -> (found: bool)
        ensures
            found == self@.contains_key(lower(name@)),
    {
        let small = to_lower(name);
        let n = self.entries.len();
        let mut i = n;
        assert(self.entries@.take(n as int) =~= self.entries@);
        while i > 0
            invariant
                i <= n,
                n == self.entries@.len(),
                small@ == lower(name@),
                header_map(self.entries@.take(i as int)).contains_key(small@) == self@.contains_key(
                    small@,
                ),
            decreases i,
        {
            assert(self.entries@.take(i as int).drop_last() =~= self.entries@.take(i - 1));
            if text_eq(to_lower(self.entries[i - 1].0.as_str()).as_str(), small.as_str()) {
                return true;
            }
            i = i - 1;
        }
        false
    }
}

/// Whether a header is about the connection that it came on.
pub open spec fn is_hop(name: Seq<char>) -> bool {
    let small = lower(name);
    small == "connection"@ || small == "keep-alive"@ || small == "proxy-authenticate"@ || small
        == "proxy-authorization"@ || small == "te"@ || small == "trailer"@ || small
        == "transfer-encoding"@ || small == "upgrade"@
}

/// Whether a header is about the connection that it came on.
pub fn hop_header(name: &str) -> (hop: bool)
    ensures
        hop == is_hop(name@),
{
    let small = to_lower(name);
    text_eq(small.as_str(), "connection") || text_eq(small.as_str(), "keep-alive") || text_eq(
        small.as_str(),
        "proxy-authenticate",
    ) || text_eq(small.as_str(), "proxy-authorization") || text_eq(small.as_str(), "te") || text_eq(
        small.as_str(),
        "trailer",
    ) || text_eq(small.as_str(), "transfer-encoding") || text_eq(small.as_str(), "upgrade")
}

/// Whether a header of a client stays with the proxy: what is about the connection, credentials, the
/// host, the length, cookies and the way that a request came.
pub open spec fn is_stripped(name: Seq<char>) -> bool {
    let small = lower(name);
    is_hop(name) || small == "authorization"@ || small == "host"@ || small == "content-length"@
        || small == "cookie"@ || small == "forwarded"@ || has_prefix(small, "x-forwarded-"@)
}

/// Whether a header of a client stays with the proxy.
fn strips(name: &str) -> (result: bool)
    ensures
        result == is_stripped(name@),
{
    let small = to_lower(name);
    hop_header(name) || text_eq(small.as_str(), "authorization") || text_eq(small.as_str(), "host")
        || text_eq(small.as_str(), "content-length") || text_eq(small.as_str(), "cookie") || text_eq(
        small.as_str(),
        "forwarded",
    ) || starts_with(small.as_str(), "x-forwarded-")
}

/// The headers of a client that are handed on.
pub open spec fn filtered(from: Seq<(String, Vec<u8>)>) -> Map<Seq<char>, Seq<u8>>
    decreases from.len(),
{
    if from.len() == 0 {
        Map::empty()
    } else {
        let before = filtered(from.drop_last());
        if is_stripped(from.last().0@) {
            before
        } else {
            before.insert(lower(from.last().0@), from.last().1@)
        }
    }
}

/// The headers of a client that are handed on. Of more values of a header the last is.
pub fn filtered_headers(from: &Vec<(String, Vec<u8>)>) -> (headers: Headers)
    ensures
        headers@ == filtered(from@),
{
    let mut headers = Headers::new();
    let mut i: usize = 0;
    assert(from@.take(0) =~= Seq::<(String, Vec<u8>)>::empty());
    while i < from.len()
        invariant
            i <= from@.len(),
            headers@ == filtered(from@.take(i as int)),
        decreases from@.len() - i,
    {
        assert(from@.take(i + 1).drop_last() =~= from@.take(i as int));
        if !strips(from[i].0.as_str()) {
            headers.insert(from[i].0.as_str(), from[i].1.as_slice());
        }
        i = i + 1;
    }
    assert(from@.take(from@.len() as int) =~= from@);
    headers
}

/// The headers of a request whose body the proxy has made: those of the client that are handed on,
/// with the type of the new body.
pub open spec fn adapted(from: Seq<(String, Vec<u8>)>) -> Map<Seq<char>, Seq<u8>> {
    filtered(from).insert("content-type"@, text_bytes("application/json"@))
}

/// The headers of a request whose body the proxy has made: those of the client that are handed on,
/// with the type of the new body.
pub fn adapter_headers(from: &Vec<(String, Vec<u8>)>) -> (headers: Headers)
    ensures
        headers@ == adapted(from@),
{
    proof {
        lemma_own_names();
    }
    let mut headers = filtered_headers(from);
    headers.insert_text("content-type", "application/json");
    headers
}

/// The headers of a provider's answer that are handed on.
pub open spec fn answered(from: Seq<(String, Vec<u8>)>) -> Map<Seq<char>, Seq<u8>>
    decreases from.len(),
{
    if from.len() == 0 {
        Map::empty()
    } else {
        let before = answered(from.drop_last());
        let name = from.last().0@;
        if is_hop(name) || lower(name) == "content-length"@ {
            before
        } else {
            before.insert(lower(name), from.last().1@)
        }
    }
}

/// The headers of an answer that is handed on: those of the provider, but for what is about the
/// connection and the length, and leave for every page to read it.
pub open spec fn answer_headers(
    from: Seq<(String, Vec<u8>)>,
    default_type: Option<Seq<char>>,
) -> Map<Seq<char>, Seq<u8>> {
    let copied = answered(from).insert("access-control-allow-origin"@, text_bytes("*"@));
    match default_type {
        Some(kind) => if copied.contains_key("content-type"@) {
            copied
        } else {
            copied.insert("content-type"@, text_bytes(kind))
        },
        None => copied,
    }
}

/// The headers of an answer that is handed on. Where the provider does not say what it is, it is
/// `default_type`, if that is given.
pub fn copy_response_headers(from: &Vec<(String, Vec<u8>)>, default_type: Option<&str>) -> (headers:
    Headers)
    ensures
        headers@ == answer_headers(
            from@,
            match default_type {
                Some(kind) => Some(kind@),
                None => None,
            },
        ),
{
    proof {
        lemma_own_names();
    }
    let mut headers = Headers::new();
    let mut i: usize = 0;
    assert(from@.take(0) =~= Seq::<(String, Vec<u8>)>::empty());
    while i < from.len()
        invariant
            i <= from@.len(),
            headers@ == answered(from@.take(i as int)),
        decreases from@.len() - i,
    {
        assert(from@.take(i + 1).drop_last() =~= from@.take(i as int));
        let name = from[i].0.as_str();
        if !hop_header(name) && !text_eq(to_lower(name).as_str(), "content-length") {
            headers.insert(name, from[i].1.as_slice());
        }
        i = i + 1;
    }
    assert(from@.take(from@.len() as int) =~= from@);
    headers.insert_text("access-control-allow-origin", "*");
    if let Some(kind) = default_type {
        if !headers.contains("content-type") {
            headers.insert_text("content-type", kind);
        }
    }
    headers
}

/// Whether a character can stand in the name of a header.
pub open spec fn is_token_char(c: char) -> bool {
    ||| 'a' <= c <= 'z'
    ||| 'A' <= c <= 'Z'
    ||| '0' <= c <= '9'
    ||| "!#$%&'*+-.^_`|~"@.contains(c)
}

/// The name of a header as it is sent, in lower case; nothing if no header can have that name.
pub open spec fn header_name(text: Seq<char>) -> Option<Seq<char>> {
    if 0 < text.len() <= 65535 && forall|i: int|
        0 <= i < text.len() ==> is_token_char(#[trigger] text[i]) {
        Some(lower(text))
    } else {
        None
    }
}

/// Calls `HeaderName::from_bytes` of the http crate, which reqwest hands on. The contract says which
/// texts it takes, and that it writes them in lower case.
#[verifier::external_body]
fn read_header_name(text: &str) -> (name: Option<String>)
    ensures
        header_name(text@) == (match name {
            Some(name) => Some(name@),
            None => None,
        }),
{
    match reqwest::header::HeaderName::from_bytes(text.as_bytes()) {
        Ok(name) => Some(name.as_str().to_owned()),
        Err(_) => None,
    }
}

/// Whether a text can be the value of a header: it has no control characters but tabs.
pub open spec fn is_header_value(text: Seq<char>) -> bool {
    forall|i: int|
        0 <= i < text.len() ==> (#[trigger] text[i] >= ' ' && text[i] != '\u{7f}') || text[i]
            == '\t'
}

/// Calls `HeaderValue::from_str` of the http crate, which reqwest hands on. The contract says which
/// texts it takes, and what the message for the others is.
#[verifier::external_body]
fn check_header_value(text: &str) -> (result: Result<(), String>)
    ensures
        result is Ok == is_header_value(text@),
        result matches Err(message) ==> message@ == "failed to parse header value"@,
{
    match reqwest::header::HeaderValue::from_str(text) {
        Ok(_) => Ok(()),
        Err(error) => Err(error.to_string()),
    }
}

/// Headers with those that a provider's configuration adds.
pub open spec fn with_configured(
    base: Map<Seq<char>, Seq<u8>>,
    list: Seq<(Seq<char>, JsonView)>,
) -> Map<Seq<char>, Seq<u8>>
    decreases list.len(),
{
    if list.len() == 0 {
        base
    } else {
        let before = with_configured(base, list.drop_last());
        match (header_name(list.last().0), list.last().1) {
            (Some(name), JsonView::String(value)) => if is_header_value(value) {
                before.insert(name, text_bytes(value))
            } else {
                before
            },
            _ => before,
        }
    }
}

/// The authorization of an account.
pub open spec fn authorization(account: AccountView) -> Seq<char> {
    "Bearer "@ + account.tokens.access_token
}

/// The headers that the proxy adds for an account, without those of the configuration.
pub open spec fn account_headers(provider: Provider, account: AccountView) -> Map<
    Seq<char>,
    Seq<u8>,
> {
    let base = Map::empty().insert("authorization"@, text_bytes(authorization(account))).insert(
        "user-agent"@,
        text_bytes(user_agent_view(provider)),
    );
    match metadata_text(account.metadata, "accountId"@) {
        Some(id) => base.insert("chatgpt-account-id"@, text_bytes(id)),
        None => base,
    }
}

/// Whether the headers that the proxy adds for an account can be sent.
pub open spec fn can_send(provider: Provider, account: AccountView) -> bool {
    &&& is_header_value(authorization(account))
    &&& is_header_value(user_agent_view(provider))
    &&& metadata_text(account.metadata, "accountId"@) matches Some(id) ==> is_header_value(id)
}

/// Whether a header says in whose name a request is.
pub open spec fn is_credential(name: Seq<char>) -> bool {
    name == "authorization"@ || name == "chatgpt-account-id"@
}

/// Headers with others laid over them; credentials stay.
pub open spec fn overlaid(
    base: Map<Seq<char>, Seq<u8>>,
    extra: Map<Seq<char>, Seq<u8>>,
) -> Map<Seq<char>, Seq<u8>> {
    Map::new(
        |name: Seq<char>| base.contains_key(name) || extra.contains_key(name),
        |name: Seq<char>|
            if extra.contains_key(name) && !(is_credential(name) && base.contains_key(name)) {
                extra[name]
            } else {
                base[name]
            },
    )
}

/// The headers of a request to a provider in the name of an account: those of the proxy, those that
/// the configuration adds, and those of the request. A request cannot replace the credentials.
pub fn upstream_headers(provider: &Provider, account: &Account, extra: &Headers) -> (result: Result<
    Headers,
    AppError,
>)
    ensures
        match result {
            Ok(headers) => can_send(*provider, account@) && exists|list: Seq<(Seq<char>, JsonView)>|
                is_listing(list, provider.api.headers@) && headers@ == overlaid(
                    #[trigger] with_configured(account_headers(*provider, account@), list),
                    extra@,
                ),
            Err(error) => !can_send(*provider, account@) && error@ == error_view(
                500,
                "failed to parse header value"@,
            ),
        },
{
    proof {
        lemma_own_names();
    }
    let mut token = "Bearer ".to_owned();
    token.append(account.tokens.access_token.as_str());
    let agent = user_agent(provider);
    let mut headers = Headers::new();
    if let Err(message) = check_header_value(token.as_str()) {
        return Err(AppError::internal(message.as_str()));
    }
    headers.insert_text("authorization", token.as_str());
    if let Err(message) = check_header_value(agent.as_str()) {
        return Err(AppError::internal(message.as_str()));
    }
    headers.insert_text("user-agent", agent.as_str());
    if let Some(id) = account.metadata.string("accountId") {
        if let Err(message) = check_header_value(id) {
            return Err(AppError::internal(message.as_str()));
        }
        headers.insert_text("chatgpt-account-id", id);
    }
    let ghost base = headers@;
    assert(base =~= account_headers(*provider, account@));
    let list = provider.api.headers.listing();
    let ghost views = entry_views(list@);
    let mut i: usize = 0;
    assert(views.take(0) =~= Seq::<(Seq<char>, JsonView)>::empty());
    while i < list.len()
        invariant
            i <= list@.len(),
            views == entry_views(list@),
            headers@ == with_configured(base, views.take(i as int)),
        decreases list@.len() - i,
    {
        proof {
            let next = views.take(i + 1);
            assert(next.drop_last() =~= views.take(i as int));
            assert(next.last() == (list@[i as int].0@, list@[i as int].1@));
        }
        if let Some(name) = read_header_name(list[i].0.as_str()) {
            if let Json::String(value) = &list[i].1 {
                if check_header_value(value.as_str()).is_ok() {
                    proof {
                        lemma_lower_twice(list@[i as int].0@);
                    }
                    headers.insert_text(name.as_str(), value.as_str());
                }
            }
        }
        i = i + 1;
    }
    assert(views.take(list@.len() as int) =~= views);
    let ghost own = headers@;
    let has_authorization = headers.contains("authorization");
    let has_account = headers.contains("chatgpt-account-id");
    let ghost given = extra.entries@;
    let mut i: usize = 0;
    proof {
        assert(given.take(0) =~= Seq::<(String, Vec<u8>)>::empty());
        assert(overlaid(own, header_map(given.take(0))) =~= own);
    }
    while i < extra.entries.len()
        invariant
            i <= extra.entries@.len(),
            given == extra.entries@,
            has_authorization == own.contains_key("authorization"@),
            has_account == own.contains_key("chatgpt-account-id"@),
            headers@ == overlaid(own, header_map(given.take(i as int))),
        decreases extra.entries@.len() - i,
    {
        let name = to_lower(extra.entries[i].0.as_str());
        assert(given.take(i + 1).drop_last() =~= given.take(i as int));
        let kept = (has_authorization && text_eq(name.as_str(), "authorization")) || (has_account
            && text_eq(name.as_str(), "chatgpt-account-id"));
        proof {
            lemma_lower_twice(given[i as int].0@);
        }
        if !kept {
            headers.insert(name.as_str(), extra.entries[i].1.as_slice());
        }
        assert(headers@ =~= overlaid(own, header_map(given.take(i + 1))));
        i = i + 1;
    }
    assert(given.take(given.len() as int) =~= given);
    assert(own == with_configured(account_headers(*provider, account@), views));
    Ok(headers)
}

/// The names under which headers are kept are in lower case: there is one value for a name, in
/// whatever case it is given.
pub proof fn law_names_are_in_lower_case(entries: Seq<(String, Vec<u8>)>, name: Seq<char>)
    ensures
        header_map(entries).contains_key(name) ==> lower(name) == name,
    decreases entries.len(),
{
    if entries.len() > 0 {
        law_names_are_in_lower_case(entries.drop_last(), name);
        lemma_lower_twice(entries.last().0@);
    }
}

/// A request never passes the credentials of the client on, nor its cookies or the way it came, and
/// hands every other header on.
pub proof fn law_filtered_headers(from: Seq<(String, Vec<u8>)>, name: Seq<char>)
    ensures
        is_stripped(name) ==> !filtered(from).contains_key(name),
        !is_stripped(name) ==> filtered(from).contains_key(name) == header_map(from).contains_key(
            name,
        ),
        !is_stripped(name) && header_map(from).contains_key(name) ==> filtered(from)[name]
            == header_map(from)[name],
    decreases from.len(),
{
    if from.len() > 0 {
        law_filtered_headers(from.drop_last(), name);
        lemma_lower_twice(from.last().0@);
    }
}

/// A request in the name of an account bears the token of that account and no other, whatever headers
/// the client sent and in whatever case, unless the configuration sets the authorization itself.
pub proof fn law_credentials_are_the_accounts(
    provider: Provider,
    account: AccountView,
    list: Seq<(Seq<char>, JsonView)>,
    extra: Seq<(String, Vec<u8>)>,
)
    requires
        forall|i: int|
            0 <= i < list.len() ==> header_name((#[trigger] list[i]).0) != Some("authorization"@),
    ensures
        ({
            let headers = overlaid(
                with_configured(account_headers(provider, account), list),
                header_map(extra),
            );
            &&& headers.contains_key("authorization"@)
            &&& headers["authorization"@] == text_bytes(authorization(account))
            &&& forall|name: Seq<char>|
                #[trigger] headers.contains_key(name) && lower(name) == "authorization"@ ==> name
                    == "authorization"@
        }),
{
    let headers = overlaid(
        with_configured(account_headers(provider, account), list),
        header_map(extra),
    );
    assert forall|name: Seq<char>| #[trigger] headers.contains_key(name) implies lower(name)
        == name by {
        lemma_own_names();
        lemma_configured_names(account_headers(provider, account), list, name);
        law_names_are_in_lower_case(extra, name);
    }
    lemma_configured(account_headers(provider, account), list);
    reveal_strlit("authorization");
    reveal_strlit("user-agent");
    reveal_strlit("chatgpt-account-id");
    assert("authorization"@.len() == 13 && "user-agent"@.len() == 10);
    assert("chatgpt-account-id"@.len() == 18);
}

proof fn lemma_configured_names(
    base: Map<Seq<char>, Seq<u8>>,
    list: Seq<(Seq<char>, JsonView)>,
    name: Seq<char>,
)
    requires
        base.contains_key(name) ==> lower(name) == name,
    ensures
        with_configured(base, list).contains_key(name) ==> lower(name) == name,
    decreases list.len(),
{
    if list.len() > 0 {
        lemma_configured_names(base, list.drop_last(), name);
        lemma_lower_twice(list.last().0);
    }
}

proof fn lemma_configured(base: Map<Seq<char>, Seq<u8>>, list: Seq<(Seq<char>, JsonView)>)
    requires
        forall|i: int|
            0 <= i < list.len() ==> header_name((#[trigger] list[i]).0) != Some("authorization"@),
    ensures
        with_configured(base, list).contains_key("authorization"@) == base.contains_key(
            "authorization"@,
        ),
        with_configured(base, list)["authorization"@] == base["authorization"@],
    decreases list.len(),
{
    if list.len() > 0 {
        let short = list.drop_last();
        assert forall|i: int| 0 <= i < short.len() implies header_name((#[trigger] short[i]).0)
            != Some("authorization"@) by {
            assert(short[i] == list[i]);
        }
        assert(header_name(list[list.len() - 1].0) != Some("authorization"@));
        lemma_configured(base, short);
    }
}

/// The headers, in lower case, that are about the connection that they came on.
pub open spec fn tells_of_connection(name: Seq<char>) -> bool {
    name == "connection"@ || name == "keep-alive"@ || name == "proxy-authenticate"@ || name
        == "proxy-authorization"@ || name == "te"@ || name == "trailer"@ || name
        == "transfer-encoding"@ || name == "upgrade"@
}

/// The headers, in lower case, that a client sends to the proxy alone.
pub open spec fn meant_for_the_proxy(name: Seq<char>) -> bool {
    tells_of_connection(name) || name == "authorization"@ || name == "host"@ || name
        == "content-length"@ || name == "cookie"@ || name == "forwarded"@ || (name.len() >= 12
        && name.take(12) == "x-forwarded-"@)
}

/// Whether entry `i` is the last one for its header, which is called `name` in lower case.
pub open spec fn is_last_for(entries: Seq<(String, Vec<u8>)>, i: int, name: Seq<char>) -> bool {
    &&& 0 <= i < entries.len()
    &&& lower(entries[i].0@) == name
    &&& forall|k: int| i < k < entries.len() ==> lower((#[trigger] entries[k]).0@) != name
}

/// Headers have for each name the value of its last entry, and no name without an entry.
pub proof fn law_last_entry_counts(entries: Seq<(String, Vec<u8>)>, i: int, name: Seq<char>)
    ensures
        is_last_for(entries, i, name) ==> header_map(entries).contains_key(name) && header_map(
            entries,
        )[name] == entries[i].1@,
        (forall|k: int| 0 <= k < entries.len() ==> lower((#[trigger] entries[k]).0@) != name)
            ==> !header_map(entries).contains_key(name),
    decreases entries.len(),
{
    if entries.len() > 0 {
        let short = entries.drop_last();
        law_last_entry_counts(short, i, name);
        let last = entries[entries.len() - 1];
        if is_last_for(entries, i, name) && i < short.len() {
            assert forall|k: int| i < k < short.len() implies lower((#[trigger] short[k]).0@)
                != name by {
                assert(short[k] == entries[k]);
            }
            assert(lower(last.0@) != name);
        }
        if forall|k: int| 0 <= k < entries.len() ==> lower((#[trigger] entries[k]).0@) != name {
            assert forall|k: int| 0 <= k < short.len() implies lower((#[trigger] short[k]).0@)
                != name by {
                assert(short[k] == entries[k]);
            }
            assert(lower(last.0@) != name);
        }
    }
}

/// Of the headers of a client exactly those that are meant for the proxy stay with it, in whatever
/// case they were written; every other goes on with the value of its last entry, and a body that the
/// proxy made is announced as JSON.
pub proof fn law_client_headers_go_on(from: Seq<(String, Vec<u8>)>, name: Seq<char>)
    requires
        lower(name) == name,
    ensures
        filtered(from).contains_key(name) <==> header_map(from).contains_key(name)
            && !meant_for_the_proxy(name),
        filtered(from).contains_key(name) ==> filtered(from)[name] == header_map(from)[name],
        adapted(from).contains_key("content-type"@),
        adapted(from)["content-type"@] == encode_utf8("application/json"@),
        name != "content-type"@ ==> (adapted(from).contains_key(name) <==> filtered(
            from,
        ).contains_key(name)) && adapted(from)[name] == filtered(from)[name],
{
    law_filtered_headers(from, name);
    reveal_strlit("x-forwarded-");
    assert("x-forwarded-"@.len() == 12);
}

proof fn lemma_answered(from: Seq<(String, Vec<u8>)>, name: Seq<char>)
    requires
        lower(name) == name,
    ensures
        answered(from).contains_key(name) <==> header_map(from).contains_key(name)
            && !tells_of_connection(name) && name != "content-length"@,
        answered(from).contains_key(name) ==> answered(from)[name] == header_map(from)[name],
    decreases from.len(),
{
    if from.len() > 0 {
        lemma_answered(from.drop_last(), name);
        lemma_lower_twice(from.last().0@);
    }
}

/// The headers of a provider's answer go on to the client, but for those that are about the
/// connection and the length; every page may read the answer, and where the provider does not say
/// what it is, it is what the proxy takes it for.
pub proof fn law_answer_headers_go_on(
    from: Seq<(String, Vec<u8>)>,
    default_type: Option<Seq<char>>,
    name: Seq<char>,
)
    requires
        lower(name) == name,
    ensures
        ({
            let headers = answer_headers(from, default_type);
            let origin = "access-control-allow-origin"@;
            &&& headers.contains_key(origin) && headers[origin] == encode_utf8("*"@)
            &&& tells_of_connection(name) || name == "content-length"@ ==> !headers.contains_key(
                name,
            )
            &&& name != origin && name != "content-type"@ && !tells_of_connection(name) && name
                != "content-length"@ ==> {
                &&& headers.contains_key(name) <==> header_map(from).contains_key(name)
                &&& headers.contains_key(name) ==> headers[name] == header_map(from)[name]
            }
            &&& header_map(from).contains_key("content-type"@) ==> headers.contains_key(
                "content-type"@,
            ) && headers["content-type"@] == header_map(from)["content-type"@]
            &&& !header_map(from).contains_key("content-type"@) && default_type is Some ==> {
                &&& headers.contains_key("content-type"@)
                &&& headers["content-type"@] == encode_utf8(default_type->0)
            }
            &&& !header_map(from).contains_key("content-type"@) && default_type is None
                ==> !headers.contains_key("content-type"@)
        }),
{
    lemma_own_names();
    lemma_answered(from, name);
    reveal_strlit("connection");
    reveal_strlit("keep-alive");
    reveal_strlit("proxy-authenticate");
    reveal_strlit("proxy-authorization");
    reveal_strlit("te");
    reveal_strlit("trailer");
    reveal_strlit("transfer-encoding");
    reveal_strlit("upgrade");
    reveal_strlit("content-length");
    reveal_strlit("content-type");
    reveal_strlit("access-control-allow-origin");
    assert("connection"@.len() == 10 && "keep-alive"@.len() == 10);
    assert("proxy-authenticate"@.len() == 18 && "proxy-authorization"@.len() == 19);
    assert("te"@.len() == 2 && "trailer"@.len() == 7 && "transfer-encoding"@.len() == 17);
    assert("upgrade"@.len() == 7 && "content-length"@.len() == 14 && "content-type"@.len() == 12);
    assert("access-control-allow-origin"@.len() == 27);
    assert("trailer"@[0] != "upgrade"@[0]);
    assert("connection"@[0] != "keep-alive"@[0]);
    assert(lower("content-type"@) =~= "content-type"@);
    lemma_answered(from, "content-type"@);
}

/// The proxy introduces itself and shows the token of the account, and its identifier at the provider
/// where it is known.
pub proof fn law_account_is_shown_to_the_provider(provider: Provider, account: AccountView)
    ensures
        ({
            let headers = account_headers(provider, account);
            let known = JsonView::Object(account.metadata).str_at("accountId"@);
            &&& headers.contains_key("authorization"@)
            &&& headers["authorization"@] == encode_utf8("Bearer "@ + account.tokens.access_token)
            &&& headers.contains_key("user-agent"@)
            &&& provider.api.user_agent@.len() > 0 ==> headers["user-agent"@] == encode_utf8(
                provider.api.user_agent@,
            )
            &&& provider.api.user_agent@.len() == 0 ==> headers["user-agent"@] == encode_utf8(
                "ai_proxy"@ + "/"@ + "0.1.0"@,
            )
            &&& headers.contains_key("chatgpt-account-id"@) <==> known is Some
            &&& known is Some ==> headers["chatgpt-account-id"@] == encode_utf8(known->0)
        }),
{
    reveal_strlit("authorization");
    reveal_strlit("user-agent");
    reveal_strlit("chatgpt-account-id");
    assert("authorization"@.len() == 13 && "user-agent"@.len() == 10);
    assert("chatgpt-account-id"@.len() == 18);
}

/// What a request says in its headers comes before what the proxy and the configuration say, but
/// never in place of the credentials.
pub proof fn law_request_headers_come_first(
    base: Map<Seq<char>, Seq<u8>>,
    extra: Map<Seq<char>, Seq<u8>>,
    name: Seq<char>,
)
    ensures
        overlaid(base, extra).contains_key(name) <==> base.contains_key(name)
            || extra.contains_key(name),
        extra.contains_key(name) && name != "authorization"@ && name != "chatgpt-account-id"@
            ==> overlaid(base, extra)[name] == extra[name],
        base.contains_key(name) && (name == "authorization"@ || name == "chatgpt-account-id"@)
            ==> overlaid(base, extra)[name] == base[name],
        base.contains_key(name) && !extra.contains_key(name) ==> overlaid(base, extra)[name]
            == base[name],
        !base.contains_key(name) && extra.contains_key(name) ==> overlaid(base, extra)[name]
            == extra[name],
{
}

/// A header that the configuration adds is sent: of more entries for a name the last that is a text
/// and can be sent counts, and every other header stays.
pub proof fn law_configured_headers_are_sent(
    base: Map<Seq<char>, Seq<u8>>,
    list: Seq<(Seq<char>, JsonView)>,
    entry: (Seq<char>, JsonView),
    name: Seq<char>,
)
    ensures
        with_configured(base, Seq::empty()) == base,
        ({
            let before = with_configured(base, list);
            let after = with_configured(base, list.push(entry));
            let good = header_name(entry.0) is Some && entry.1 is String && is_header_value(
                entry.1.str()->0,
            );
            &&& good ==> after.contains_key(lower(entry.0)) && after[lower(entry.0)] == encode_utf8(
                entry.1.str()->0,
            )
            &&& !good ==> after == before
            &&& name != lower(entry.0) ==> (after.contains_key(name) <==> before.contains_key(name))
                && after[name] == before[name]
        }),
{
    assert(list.push(entry).drop_last() =~= list);
}

/// A request can be sent exactly if what the proxy adds to it can be sent as headers: the token, its
/// own name, and the identifier of the account where it is known.
pub proof fn law_sendable_accounts(provider: Provider, account: AccountView)
    ensures
        ({
            let known = JsonView::Object(account.metadata).str_at("accountId"@);
            let agent = if provider.api.user_agent@.len() > 0 {
                provider.api.user_agent@
            } else {
                "ai_proxy"@ + "/"@ + "0.1.0"@
            };
            can_send(provider, account) <==> is_header_value("Bearer "@ + account.tokens.access_token)
                && is_header_value(agent) && (known is Some ==> is_header_value(known->0))
        }),
{
}

}
