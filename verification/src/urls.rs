//! Where things are: the addresses of accounts, pages and providers.

use crate::config::{program_text, program_view, Config, Provider};
use crate::errors::{error_view, AppError, ErrorView};
use crate::model::{Account, AccountView};
use crate::order::{deduplicated, sort_and_dedup, sorted_texts};
use crate::text::{chars_of, decimal, has_prefix, number_text, starts_with, text_between, texts};
use vstd::prelude::*;
use vstd::string::*;

verus! {

/// The address of a host and port, followed by a path.
pub open spec fn http_address(host: Seq<char>, port: nat, path: Seq<char>) -> Seq<char> {
    "http://"@ + host + ":"@ + decimal(port) + path
}

/// The address of a host and port, followed by a path.
fn address(host: &str, port: u16, path: &str) -> (text: String)
    ensures
        text@ == http_address(host@, port as nat, path@),
{
    let mut text = "http://".to_owned();
    text.append(host);
    text.append(":");
    text.append(number_text(port as u64).as_str());
    text.append(path);
    text
}

/// The address that an account is served at.
pub open spec fn base_url_view(public_host: Seq<char>, account: AccountView) -> Seq<char> {
    http_address(
        public_host,
        match account.port {
            Some(port) => port as nat,
            None => 0,
        },
        "/v1"@,
    )
}

/// The address that an account is served at.
pub fn base_url(config: &Config, account: &Account) -> (url: String)
    ensures
        url@ == base_url_view(config.public_host@, account@),
{
    let port = match account.port {
        Some(port) => port,
        None => 0,
    };
    address(config.public_host.as_str(), port, "/v1")
}

/// The address of a page of the dashboard.
pub open spec fn admin_url_view(config: Config, suffix: Seq<char>) -> Seq<char> {
    http_address(config.public_host@, config.admin_port as nat, suffix)
}

/// The address of a page of the dashboard.
pub fn admin_url(config: &Config, suffix: &str) -> (url: String)
    ensures
        url@ == admin_url_view(*config, suffix@),
{
    address(config.public_host.as_str(), config.admin_port, suffix)
}

/// The path that logins of a provider come back to.
pub open spec fn redirect_path_view(provider: Provider) -> Seq<char> {
    if provider.oauth.redirect_path@.len() == 0 {
        "/auth/callback"@
    } else {
        provider.oauth.redirect_path@
    }
}

/// The path that logins of a provider come back to.
pub fn redirect_path(provider: &Provider) -> (path: &str)
    ensures
        path@ == redirect_path_view(*provider),
{
    if provider.oauth.redirect_path.as_str().is_empty() {
        "/auth/callback"
    } else {
        provider.oauth.redirect_path.as_str()
    }
}

/// The paths that logins of providers come back to.
pub open spec fn redirect_paths(providers: Seq<(String, Provider)>) -> Seq<Seq<char>> {
    providers.map_values(|entry: (String, Provider)| redirect_path_view(entry.1))
}

/// The paths that logins come back to, in their order and each once.
pub open spec fn oauth_paths_view(config: Config) -> Seq<Seq<char>> {
    deduplicated(sorted_texts(redirect_paths(config.providers@)))
}

/// The paths that logins come back to, in their order and each once.
pub fn oauth_paths(config: &Config) -> (paths: Vec<String>)
    ensures
        texts(paths@) == oauth_paths_view(*config),
{
    let mut paths: Vec<String> = Vec::new();
    let mut i: usize = 0;
    while i < config.providers.len()
        invariant
            i <= config.providers@.len(),
            texts(paths@) == redirect_paths(config.providers@).take(i as int),
        decreases config.providers@.len() - i,
    {
        let ghost before = paths@;
        let path = redirect_path(&config.providers[i].1).to_owned();
        paths.push(path);
        proof {
            assert(texts(paths@) =~= texts(before).push(path@));
            assert(redirect_paths(config.providers@).take(i + 1) =~= redirect_paths(
                config.providers@,
            ).take(i as int).push(path@));
        }
        i = i + 1;
    }
    assert(texts(paths@) =~= redirect_paths(config.providers@));
    sort_and_dedup(&paths)
}

/// The address that logins of a provider come back to.
pub open spec fn redirect_uri_view(config: Config, provider: Provider) -> Seq<char> {
    http_address("localhost"@, config.oauth_port as nat, redirect_path_view(provider))
}

/// The address that logins of a provider come back to.
pub fn oauth_redirect_uri(config: &Config, provider: &Provider) -> (uri: String)
    ensures
        uri@ == redirect_uri_view(*config, *provider),
{
    address("localhost", config.oauth_port, redirect_path(provider))
}

/// The name that the proxy gives itself at a provider.
pub open spec fn user_agent_view(provider: Provider) -> Seq<char> {
    if provider.api.user_agent@.len() == 0 {
        program_view()
    } else {
        provider.api.user_agent@
    }
}

/// The name that the proxy gives itself at a provider.
pub fn user_agent(provider: &Provider) -> (name: String)
    ensures
        name@ == user_agent_view(*provider),
{
    if provider.api.user_agent.as_str().is_empty() {
        program_text()
    } else {
        provider.api.user_agent.clone()
    }
}

/// `text` without the slashes at its end.
pub open spec fn without_end_slashes(text: Seq<char>) -> Seq<char>
    decreases text.len(),
{
    if text.len() > 0 && text.last() == '/' {
        without_end_slashes(text.drop_last())
    } else {
        text
    }
}

/// Whether a path is an address of its own.
pub open spec fn is_full_url(path: Seq<char>) -> bool {
    has_prefix(path, "http://"@) || has_prefix(path, "https://"@)
}

/// The address of a path at a provider; a path that is an address of its own stays as it is.
pub open spec fn upstream_url_view(base: Seq<char>, path: Seq<char>) -> Seq<char> {
    if is_full_url(path) {
        path
    } else {
        without_end_slashes(base) + if has_prefix(path, "/"@) {
            path
        } else {
            "/"@ + path
        }
    }
}

/// The address of a path at a provider; a path that is an address of its own stays as it is.
pub fn upstream_url(provider: &Provider, path: &str) -> (url: String)
    ensures
        url@ == upstream_url_view(provider.api.base_url@, path@),
{
    if starts_with(path, "http://") || starts_with(path, "https://") {
        return path.to_owned();
    }
    let chars = chars_of(provider.api.base_url.as_str());
    let mut end = chars.len();
    assert(chars@.take(end as int) =~= chars@);
    while end > 0 && chars[end - 1] == '/'
        invariant
            end <= chars@.len(),
            without_end_slashes(chars@) == without_end_slashes(chars@.take(end as int)),
        decreases end,
    {
        assert(chars@.take(end as int).drop_last() =~= chars@.take(end - 1));
        end = end - 1;
    }
    let mut url = text_between(&chars, 0, end);
    assert(url@ =~= chars@.take(end as int));
    if !starts_with(path, "/") {
        url.append("/");
    }
    url.append(path);
    assert(url@ =~= upstream_url_view(provider.api.base_url@, path@));
    url
}

/// `path`, or `default` if it is empty.
pub open spec fn path_or(path: Seq<char>, default: Seq<char>) -> Seq<char> {
    if path.len() == 0 {
        default
    } else {
        path
    }
}

/// The error of a provider that is not configured.
pub open spec fn provider_missing(id: Seq<char>) -> ErrorView {
    error_view(500, "Provider not configured: "@ + id)
}

/// The provider with this key, or an error.
pub fn provider<'a>(config: &'a Config, id: &str) -> (result: Result<&'a Provider, AppError>)
    ensures
        match config.provider(id@) {
            Some(found) => result matches Ok(provider) && *provider == found,
            None => result matches Err(error) && error@ == provider_missing(id@),
        },
{
    match config.find_provider(id) {
        Some(provider) => Ok(provider),
        None => {
            let mut message = "Provider not configured: ".to_owned();
            message.append(id);
            Err(AppError::internal(message.as_str()))
        },
    }
}

/// Everything has its address: an account at its own port, the dashboard at the admin port, and
/// logins come back to this machine at the port for logins.
pub proof fn law_addresses(config: Config, provider: Provider, account: AccountView, suffix: Seq<char>)
    ensures
        account.port is Some ==> base_url_view(config.public_host@, account) == "http://"@
            + config.public_host@ + ":"@ + decimal(account.port->0 as nat) + "/v1"@,
        admin_url_view(config, suffix) == "http://"@ + config.public_host@ + ":"@ + decimal(
            config.admin_port as nat,
        ) + suffix,
        provider.oauth.redirect_path@.len() > 0 ==> redirect_uri_view(config, provider) == "http://"@
            + "localhost"@ + ":"@ + decimal(config.oauth_port as nat)
            + provider.oauth.redirect_path@,
        provider.oauth.redirect_path@.len() == 0 ==> redirect_uri_view(config, provider)
            == "http://"@ + "localhost"@ + ":"@ + decimal(config.oauth_port as nat)
            + "/auth/callback"@,
{
}

/// Logins come back to the path of every provider, and to no other.
pub proof fn law_every_provider_has_its_path(config: Config, path: Seq<char>)
    ensures
        oauth_paths_view(config).contains(path) <==> exists|i: int|
            0 <= i < config.providers@.len() && path == redirect_path_view(
                (#[trigger] config.providers@[i]).1,
            ),
{
    let paths = redirect_paths(config.providers@);
    crate::order::law_sorted_without_repetition(paths);
    if paths.contains(path) {
        let i = choose|i: int| 0 <= i < paths.len() && paths[i] == path;
        assert(path == redirect_path_view(config.providers@[i].1));
    }
    if exists|i: int|
        0 <= i < config.providers@.len() && path == redirect_path_view(
            (#[trigger] config.providers@[i]).1,
        ) {
        let i = choose|i: int|
            0 <= i < config.providers@.len() && path == redirect_path_view(
                (#[trigger] config.providers@[i]).1,
            );
        assert(paths[i] == path);
    }
}

/// A path follows the address of its provider with one slash between them, however many end the
/// address; a path that is an address of its own stays as it is.
pub proof fn law_path_follows_the_address(base: Seq<char>, path: Seq<char>)
    requires
        base.len() == 0 || base.last() != '/',
    ensures
        path.len() > 0 && path[0] == '/' ==> upstream_url_view(base, path) == base + path,
        path.len() > 0 && path[0] == '/' ==> upstream_url_view(base.push('/'), path) == base + path,
        path.len() > 0 && path[0] == '/' ==> upstream_url_view(base.push('/').push('/'), path)
            == base + path,
        path.len() == 0 || (path[0] != '/' && path[0] != 'h') ==> upstream_url_view(base, path)
            == base + "/"@ + path,
        path.len() >= 7 && path.take(7) == "http://"@ ==> upstream_url_view(base, path) == path,
        path.len() >= 8 && path.take(8) == "https://"@ ==> upstream_url_view(base, path) == path,
{
    reveal_strlit("http://");
    reveal_strlit("https://");
    reveal_strlit("/");
    assert("http://"@.len() == 7 && "https://"@.len() == 8 && "/"@.len() == 1);
    assert("http://"@[0] == 'h' && "https://"@[0] == 'h' && "/"@[0] == '/');
    if path.len() >= 7 {
        assert(path.take(7)[0] == path[0]);
    }
    if path.len() >= 8 {
        assert(path.take(8)[0] == path[0]);
    }
    if path.len() > 0 {
        assert(path.take(1)[0] == path[0]);
        if path[0] == '/' {
            assert(path.take(1) =~= "/"@);
        }
    }
    assert(base.push('/').drop_last() =~= base);
    assert(base.push('/').push('/').drop_last() =~= base.push('/'));
    assert(without_end_slashes(base) == base);
    assert(without_end_slashes(base.push('/')) == base);
    assert(without_end_slashes(base.push('/').push('/')) == base);
    assert(base + ("/"@ + path) =~= base + "/"@ + path);
}

/// The proxy gives itself the name that the provider's configuration has for it, or its own.
pub proof fn law_proxy_has_a_name(provider: Provider)
    ensures
        provider.api.user_agent@.len() > 0 ==> user_agent_view(provider)
            == provider.api.user_agent@,
        provider.api.user_agent@.len() == 0 ==> user_agent_view(provider) == "ai_proxy"@ + "/"@
            + "0.1.0"@,
{
}

}
