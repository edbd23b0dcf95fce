//! What the proxy says of itself: where it listens, and what went wrong.

use crate::accounts::{account_label, label_view};
use crate::config::Config;
use crate::dashboard::lemma_occurs;
use crate::json::{json_str, json_u64, no_fields, opt_text, Json, JsonMap, JsonView};
use crate::model::{Account, AccountView};
use crate::order::law_sorted_without_repetition;
use crate::proxy::{json_opt_port, opt_number};
use crate::text::{decimal, number_text, occurs_in};
use crate::urls::{
    admin_url, admin_url_view, base_url, base_url_view, http_address, oauth_paths, oauth_paths_view,
    redirect_paths,
};
use vstd::prelude::*;
use vstd::string::*;

verus! {

/// The record of a listener: what it is, its address, and the host and port that it is bound to.
pub open spec fn listener_record(
    event: Seq<char>,
    url: Seq<char>,
    host: Seq<char>,
    port: u16,
) -> JsonView {
    JsonView::Object(
        no_fields().insert("event"@, json_str(event)).insert("url"@, json_str(url)).insert(
            "host"@,
            json_str(host),
        ).insert("port"@, json_u64(port as u64)),
    )
}

/// The record of a listener: what it is, its address, and the host and port that it is bound to.
fn listener(event: &str, url: &str, host: &str, port: u16) -> (record: Json)
    ensures
        record@ == listener_record(event@, url@, host@, port),
{
    let mut map = JsonMap::new();
    map.insert("event", Json::text(event));
    map.insert("url", Json::text(url));
    map.insert("host", Json::text(host));
    map.insert("port", Json::count(port as u64));
    Json::Object(map)
}

/// The record that says where the dashboard is.
pub fn admin_listening(config: &Config) -> (record: Json)
    ensures
        record@ == listener_record(
            "admin_listening"@,
            admin_url_view(*config, "/"@),
            config.host@,
            config.admin_port,
        ),
{
    let url = admin_url(config, "/");
    listener("admin_listening", url.as_str(), config.host.as_str(), config.admin_port)
}

proof fn lemma_some_path(config: Config)
    requires
        config.providers@.len() > 0,
    ensures
        oauth_paths_view(config).len() > 0,
{
    let paths = redirect_paths(config.providers@);
    law_sorted_without_repetition(paths);
    assert(paths.contains(paths[0]));
}

/// The record that says where logins come back to.
pub fn oauth_listening(config: &Config) -> (record: Json)
    requires
        config.providers@.len() > 0,
    ensures
        record@ == listener_record(
            "oauth_listening"@,
            http_address("localhost"@, config.oauth_port as nat, oauth_paths_view(*config)[0]),
            config.host@,
            config.oauth_port,
        ),
{
    proof {
        lemma_some_path(*config);
    }
    let paths = oauth_paths(config);
    assert(paths@[0]@ == oauth_paths_view(*config)[0]);
    let mut url = "http://localhost:".to_owned();
    url.append(number_text(config.oauth_port as u64).as_str());
    url.append(paths[0].as_str());
    proof {
        reveal_strlit("http://localhost:");
        reveal_strlit("http://");
        reveal_strlit("localhost");
        reveal_strlit(":");
        assert("http://localhost:"@ =~= "http://"@ + "localhost"@ + ":"@);
    }
    listener("oauth_listening", url.as_str(), config.host.as_str(), config.oauth_port)
}

/// The record that says where an account is served.
pub open spec fn account_record(config: Config, account: AccountView) -> JsonView {
    JsonView::Object(
        no_fields().insert("event"@, json_str("account_listening"@)).insert(
            "accountId"@,
            json_str(account.id),
        ).insert("provider"@, json_str(account.provider)).insert(
            "status"@,
            json_str(account.status),
        ).insert("port"@, json_opt_port(account.port)).insert(
            "baseUrl"@,
            json_str(base_url_view(config.public_host@, account)),
        ),
    )
}

/// The record that says where an account is served.
pub fn account_listening(config: &Config, account: &Account) -> (record: Json)
    ensures
        record@ == account_record(*config, account@),
{
    let mut map = JsonMap::new();
    map.insert("event", Json::text("account_listening"));
    map.insert("accountId", Json::text(account.id.as_str()));
    map.insert("provider", Json::text(account.provider.as_str()));
    map.insert("status", Json::text(account.status.as_str()));
    map.insert("port", opt_number(account.port));
    map.insert("baseUrl", Json::String(base_url(config, account)));
    Json::Object(map)
}

/// The record of a failure: what failed and why, with the account and its provider where there are
/// any.
pub open spec fn failure_record(
    event: Seq<char>,
    account_id: Option<Seq<char>>,
    provider: Option<Seq<char>>,
    message: Seq<char>,
) -> JsonView {
    let base = no_fields().insert("event"@, json_str(event)).insert("message"@, json_str(message));
    let named = match account_id {
        Some(id) => base.insert("accountId"@, json_str(id)),
        None => base,
    };
    JsonView::Object(
        match provider {
            Some(provider) => named.insert("provider"@, json_str(provider)),
            None => named,
        },
    )
}

/// The record of a failure: what failed and why, with the account and its provider where there are
/// any.
pub fn failure(event: &str, account_id: Option<&str>, provider: Option<&str>, message: &str) -> (record:
    Json)
    ensures
        record@ == failure_record(event@, opt_text(account_id), opt_text(provider), message@),
{
    let mut map = JsonMap::new();
    map.insert("event", Json::text(event));
    map.insert("message", Json::text(message));
    if let Some(id) = account_id {
        map.insert("accountId", Json::text(id));
    }
    if let Some(provider) = provider {
        map.insert("provider", Json::text(provider));
    }
    Json::Object(map)
}

/// What is said of a listener that could not be bound.
pub open spec fn bind_failure_view(
    label: Seq<char>,
    host: Seq<char>,
    port: u16,
    cause: Seq<char>,
) -> Seq<char> {
    "Failed to bind "@ + label + " on "@ + host + ":"@ + decimal(port as nat) + ": "@ + cause
}

/// What is said of a listener that could not be bound.
pub fn bind_failure(label: &str, host: &str, port: u16, cause: &str) -> (message: String)
    ensures
        message@ == bind_failure_view(label@, host@, port, cause@),
{
    let mut message = "Failed to bind ".to_owned();
    message.append(label);
    message.append(" on ");
    message.append(host);
    message.append(":");
    message.append(number_text(port as u64).as_str());
    message.append(": ");
    message.append(cause);
    message
}

/// What is said when the port of an account is taken: others may depend on its address.
pub open spec fn port_taken_view(
    config: Config,
    account: AccountView,
    port: u16,
    cause: Seq<char>,
) -> Seq<char> {
    "Stable downstream port "@ + decimal(port as nat) + " for "@ + label_view(account)
        + " is unavailable. Downstream agents may depend on "@ + base_url_view(
        config.public_host@,
        account,
    ) + ". Stop the conflicting process or edit "@ + config.db_path@ + ".\nCause: "@ + cause
}

/// The port of a stored account, or what is said when it has none.
pub fn stored_port(account: &Account) -> (result: Result<u16, String>)
    ensures
        match account@.port {
            Some(port) => result == Ok::<u16, String>(port),
            None => result matches Err(message) && message@ == "Stored account "@ + account@.id
                + " has no port"@,
        },
{
    match account.port {
        Some(port) => Ok(port),
        None => {
            let mut message = "Stored account ".to_owned();
            message.append(account.id.as_str());
            message.append(" has no port");
            Err(message)
        },
    }
}

/// What is said when the port of an account is taken: others may depend on its address.
pub fn port_taken(config: &Config, account: &Account, port: u16, cause: &str) -> (message: String)
    ensures
        message@ == port_taken_view(*config, account@, port, cause@),
{
    let mut message = "Stable downstream port ".to_owned();
    message.append(number_text(port as u64).as_str());
    message.append(" for ");
    message.append(account_label(account).as_str());
    message.append(" is unavailable. Downstream agents may depend on ");
    message.append(base_url(config, account).as_str());
    message.append(". Stop the conflicting process or edit ");
    message.append(config.db_path.as_str());
    message.append(".\nCause: ");
    message.append(cause);
    message
}

/// What is said of a listener names what it is, its address, and the host and port that it is bound
/// to.
pub proof fn law_listener_says_where_it_is(
    event: Seq<char>,
    url: Seq<char>,
    host: Seq<char>,
    port: u16,
)
    ensures
        listener_record(event, url, host, port).str_at("event"@) == Some(event),
        listener_record(event, url, host, port).str_at("url"@) == Some(url),
        listener_record(event, url, host, port).str_at("host"@) == Some(host),
        listener_record(event, url, host, port).u64_at("port"@) == Some(port as u64),
{
    reveal_strlit("event");
    reveal_strlit("url");
    reveal_strlit("host");
    reveal_strlit("port");
    assert("event"@.len() == 5 && "url"@.len() == 3 && "host"@.len() == 4 && "port"@.len() == 4);
    assert("host"@[0] != "port"@[0]);
}

/// What is said of an account that is served names it, its status, its port and its address.
pub proof fn law_served_account_is_named(config: Config, account: AccountView)
    ensures
        ({
            let record = account_record(config, account);
            &&& record.str_at("event"@) == Some("account_listening"@)
            &&& record.str_at("accountId"@) == Some(account.id)
            &&& record.str_at("provider"@) == Some(account.provider)
            &&& record.str_at("status"@) == Some(account.status)
            &&& account.port is Some ==> record.u64_at("port"@) == Some(account.port->0 as u64)
            &&& account.port is Some ==> record.str_at("baseUrl"@) == Some(
                "http://"@ + config.public_host@ + ":"@ + decimal(account.port->0 as nat) + "/v1"@,
            )
        }),
{
    reveal_strlit("event");
    reveal_strlit("accountId");
    reveal_strlit("provider");
    reveal_strlit("status");
    reveal_strlit("port");
    reveal_strlit("baseUrl");
    assert("event"@.len() == 5 && "accountId"@.len() == 9 && "provider"@.len() == 8);
    assert("status"@.len() == 6 && "port"@.len() == 4 && "baseUrl"@.len() == 7);
}

/// What is said of a failure names what failed and why, and whose it was where that is known.
pub proof fn law_failure_is_named(
    event: Seq<char>,
    account_id: Option<Seq<char>>,
    provider: Option<Seq<char>>,
    message: Seq<char>,
)
    ensures
        ({
            let record = failure_record(event, account_id, provider, message);
            &&& record.str_at("event"@) == Some(event)
            &&& record.str_at("message"@) == Some(message)
            &&& record.str_at("accountId"@) == account_id
            &&& record.str_at("provider"@) == provider
        }),
{
    reveal_strlit("event");
    reveal_strlit("message");
    reveal_strlit("accountId");
    reveal_strlit("provider");
    assert("event"@.len() == 5 && "message"@.len() == 7 && "accountId"@.len() == 9);
    assert("provider"@.len() == 8);
}

/// What is said of a listener that could not be bound, and of an account whose port is taken, names
/// the place, the one who is meant and the cause.
pub proof fn law_failed_listeners_are_explained(
    config: Config,
    account: AccountView,
    label: Seq<char>,
    host: Seq<char>,
    port: u16,
    cause: Seq<char>,
)
    ensures
        bind_failure_view(label, host, port, cause) == "Failed to bind "@ + label + " on "@ + host
            + ":"@ + decimal(port as nat) + ": "@ + cause,
        occurs_in(label_view(account), port_taken_view(config, account, port, cause)),
        occurs_in(decimal(port as nat), port_taken_view(config, account, port, cause)),
        occurs_in(
            base_url_view(config.public_host@, account),
            port_taken_view(config, account, port, cause),
        ),
        occurs_in(config.db_path@, port_taken_view(config, account, port, cause)),
        occurs_in(cause, port_taken_view(config, account, port, cause)),
{
    lemma_occurs();
}

}
