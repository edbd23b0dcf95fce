//! The pages of the dashboard.

use crate::accounts::{account_label, label_view};
use crate::config::{Config, Provider};
use crate::model::{account_views, Account, AccountView};
use crate::order::{law_sorting, positions, sorted_positions, stable_order};
use crate::text::{decimal, number_text, occurs_in, text_eq, texts};
use vstd::prelude::*;
use vstd::string::*;

verus! {

/// The script of the dashboard.
pub const DASHBOARD_SCRIPT: &'static str = r#"
(() => {
  const cards = new Map(Array.from(document.querySelectorAll("[data-usage-account]"))
    .map((card) => [card.dataset.usageAccount, card]));

  document.querySelectorAll("[data-local-time]").forEach((time) => {
    const date = new Date(time.dataset.localTime);
    if (!Number.isNaN(date.getTime())) {
      time.textContent = new Intl.DateTimeFormat(undefined, { dateStyle: "medium", timeStyle: "short" }).format(date);
    }
  });

  const formatPercent = (value) => {
    const rounded = Math.round(Number(value) * 10) / 10;
    return Number.isInteger(rounded) ? String(rounded) : rounded.toFixed(1);
  };
  const formatReset = (value) => {
    const seconds = Number(value);
    if (!Number.isFinite(seconds)) return "Reset time unavailable";
    const date = new Date(seconds * 1000);
    if (Number.isNaN(date.getTime())) return "Reset time unavailable";
    return "Resets " + new Intl.DateTimeFormat(undefined, { dateStyle: "medium", timeStyle: "short" }).format(date);
  };

  const renderWindow = (window) => {
    const remaining = Math.max(0, Math.min(100, Number(window.remainingPercent) || 0));
    const item = document.createElement("div");
    item.className = "usage-window";
    const heading = document.createElement("div");
    heading.className = "usage-window-heading";
    const label = document.createElement("span");
    const limitPrefix = window.limitName && window.limitId !== "codex" ? window.limitName + " · " : "";
    label.textContent = limitPrefix + window.label;
    const amount = document.createElement("span");
    amount.textContent = formatPercent(remaining) + "% remaining";
    heading.append(label, amount);
    const track = document.createElement("div");
    track.className = "usage-track";
    track.setAttribute("role", "progressbar");
    track.setAttribute("aria-label", label.textContent);
    track.setAttribute("aria-valuemin", "0");
    track.setAttribute("aria-valuemax", "100");
    track.setAttribute("aria-valuenow", String(remaining));
    const fill = document.createElement("div");
    fill.className = "usage-fill" + (remaining <= 10 ? " critical" : remaining <= 25 ? " low" : "");
    fill.style.width = remaining + "%";
    track.append(fill);
    const reset = document.createElement("small");
    reset.className = "usage-reset";
    reset.textContent = formatReset(window.resetsAt);
    item.append(heading, track, reset);
    return item;
  };

  const renderAccount = (account) => {
    const card = cards.get(account.accountId);
    if (!card) return;
    const container = card.querySelector(".usage-windows");
    container.replaceChildren();
    if (account.error) {
      const error = document.createElement("p");
      error.className = "usage-error";
      error.textContent = account.error;
      container.append(error);
      return;
    }
    if (!Array.isArray(account.windows) || account.windows.length === 0) {
      const empty = document.createElement("span");
      empty.className = "empty";
      empty.textContent = "No usage windows were returned for this account.";
      container.append(empty);
      return;
    }
    account.windows.forEach((window) => container.append(renderWindow(window)));
    if (account.refreshError) {
      const warning = document.createElement("p");
      warning.className = "usage-error";
      warning.textContent = "Latest usage refresh failed: " + account.refreshError;
      container.append(warning);
    }
  };

  const liveStatus = document.getElementById("usage-live-status");
  const refreshAllButton = document.getElementById("refresh-all-usage");
  const events = new EventSource("/api/usage/events");
  const readEvent = (event) => {
    try {
      return JSON.parse(event.data);
    } catch {
      liveStatus.textContent = "Received an invalid live usage update";
      return null;
    }
  };
  events.addEventListener("open", () => { liveStatus.textContent = "Live usage updates connected"; });
  events.addEventListener("snapshot", (event) => {
    const payload = readEvent(event);
    if (payload) (payload.accounts || []).forEach(renderAccount);
  });
  events.addEventListener("usage", (event) => {
    const account = readEvent(event);
    if (account) renderAccount(account);
  });
  events.addEventListener("error", () => {
    liveStatus.textContent = "Live usage updates disconnected; retrying…";
  });

  refreshAllButton.addEventListener("click", async () => {
    refreshAllButton.disabled = true;
    refreshAllButton.textContent = "Syncing…";
    liveStatus.textContent = "Fetching usage for all accounts…";
    try {
      const response = await fetch("/api/usage/refresh", {
        method: "POST",
        headers: { accept: "application/json" },
      });
      if (!response.ok) throw new Error("Usage sync failed with HTTP " + response.status);
      const payload = await response.json();
      (payload.accounts || []).forEach(renderAccount);
      const count = (payload.accounts || []).length;
      const failed = Number(payload.failed) || 0;
      const accountLabel = count + " account" + (count === 1 ? "" : "s");
      liveStatus.textContent = failed > 0
        ? "Synchronized " + accountLabel + "; " + failed + " failed"
        : "Synchronized " + accountLabel;
    } catch (error) {
      liveStatus.textContent = error.message || "Usage synchronization failed";
    } finally {
      refreshAllButton.disabled = false;
      refreshAllButton.textContent = "Sync all usage";
    }
  });
})();
"#;

/// The page of the dashboard up to the admin port.
pub const PAGE_HEAD: &'static str = r#"<!doctype html>
<html lang="en"><head><meta charset="utf-8"><meta name="viewport" content="width=device-width, initial-scale=1"><title>ai_proxy</title>
<style>
:root{color-scheme:light dark;font-family:ui-sans-serif,system-ui,-apple-system,BlinkMacSystemFont,"Segoe UI",sans-serif}body{margin:0;padding:32px;background:Canvas;color:CanvasText}main{max-width:1280px;margin:0 auto}h1{margin:0 0 8px;font-size:28px}p{color:color-mix(in srgb,CanvasText 70%,Canvas)}.panel{border:1px solid color-mix(in srgb,CanvasText 18%,Canvas);border-radius:14px;padding:18px;margin:20px 0}.notice{border:1px solid #3a7;background:color-mix(in srgb,#3a7 16%,Canvas);padding:12px;border-radius:10px;margin:16px 0}code{font-family:ui-monospace,SFMono-Regular,Menlo,Consolas,monospace;font-size:13px}button,select{font:inherit;border-radius:9px;border:1px solid color-mix(in srgb,CanvasText 22%,Canvas);padding:8px 10px;background:Canvas;color:CanvasText}button.primary{background:CanvasText;color:Canvas}.actions{display:flex;gap:8px;flex-wrap:wrap}.status{display:inline-block;border-radius:999px;padding:3px 8px;font-size:12px}.status.active{background:color-mix(in srgb,#2a7 24%,Canvas)}.status.needs_reauth{background:color-mix(in srgb,#c72 24%,Canvas)}.empty{color:color-mix(in srgb,CanvasText 60%,Canvas)}.section-heading{display:flex;align-items:baseline;justify-content:space-between;gap:12px;margin-bottom:16px}.section-heading h2{margin:0;font-size:19px}.section-heading small,.field-label{color:color-mix(in srgb,CanvasText 60%,Canvas)}.usage-controls{display:flex;align-items:center;justify-content:flex-end;gap:10px;flex-wrap:wrap}.usage-grid{display:flex;flex-direction:column;gap:12px}.usage-card{display:grid;grid-template-columns:minmax(230px,1.1fr) minmax(300px,2.2fr) 70px minmax(145px,.8fr) max-content;align-items:center;gap:20px;border:1px solid color-mix(in srgb,CanvasText 13%,Canvas);border-radius:11px;padding:16px;min-width:0}.usage-account-heading{min-width:0}.usage-account-heading strong{display:block;overflow-wrap:anywhere}.usage-account-heading .status{margin-top:7px}.account-error{display:block;margin-top:6px;color:#c44848;overflow-wrap:anywhere}.usage-windows{min-width:0}.usage-window+.usage-window{margin-top:13px}.usage-window-heading{display:flex;justify-content:space-between;gap:12px;margin-bottom:7px;font-size:13px}.usage-window-heading span:last-child{font-variant-numeric:tabular-nums;font-weight:650;white-space:nowrap}.usage-track{height:12px;overflow:hidden;border-radius:999px;background:color-mix(in srgb,CanvasText 12%,Canvas)}.usage-fill{height:100%;border-radius:inherit;background:#2a8f62}.usage-fill.low{background:#c47a21}.usage-fill.critical{background:#c44848}.usage-reset{display:block;margin-top:6px;color:color-mix(in srgb,CanvasText 62%,Canvas);font-size:12px}.usage-error{margin:0;color:#c44848;font-size:13px}.usage-window+.usage-error{margin-top:10px}.field-label{display:block;margin-bottom:5px;font-size:11px;font-weight:650;letter-spacing:.06em;text-transform:uppercase}.last-request time,.last-request code{display:block;font-size:12px}.last-request code{margin-top:4px}.account-actions{justify-content:flex-end}.account-actions form{margin:0}@media(max-width:950px){.usage-card{grid-template-columns:1fr;gap:15px}.usage-account-heading{display:flex;align-items:center;gap:10px;flex-wrap:wrap}.usage-account-heading .status{margin-top:0}.account-actions{justify-content:flex-start}}@media(max-width:760px){body{padding:18px}.section-heading{align-items:flex-start;flex-direction:column}}
</style></head><body><main><h1>ai_proxy</h1><p>Admin port <code>"#;

/// The page between the admin port and the port for logins.
pub const PAGE_OAUTH: &'static str = r#"</code>, OAuth redirect <code>localhost:"#;

/// The page between the port for logins and the path for logins.
pub const PAGE_PATH: &'static str = r#""#;

/// The page between the path for logins and the first port of accounts.
pub const PAGE_RANGE: &'static str = r#"</code>, downstream range <code>"#;

/// The page between the first and the last port of accounts.
pub const PAGE_TO: &'static str = r#"-"#;

/// The page between the last port of accounts and the notice.
pub const PAGE_NOTICE: &'static str = r#"</code>.</p>"#;

/// The page between the notice and the choice of providers.
pub const PAGE_OPTIONS: &'static str = r#"
<section class="panel"><form method="post" action="/accounts" class="actions"><select name="provider">"#;

/// The page between the choice of providers and the accounts.
pub const PAGE_CARDS: &'static str = r#"</select><button class="primary" type="submit">Add account</button></form></section>
<section class="panel" aria-labelledby="usage-title"><div class="section-heading"><h2 id="usage-title">Accounts &amp; usage</h2><div class="usage-controls"><small id="usage-live-status" aria-live="polite">Connecting live usage updates…</small><button id="refresh-all-usage" type="button">Sync all usage</button></div></div><div class="usage-grid">"#;

/// The page between the accounts and the script.
pub const PAGE_SCRIPT: &'static str = r#"</div></section></main>
<script>"#;

/// The page behind the script.
pub const PAGE_END: &'static str = r#"</script></body></html>"#;

/// The card of an account up to its identifier.
pub const CARD_ID: &'static str = r#"<article class="usage-card" data-usage-account=""#;

/// The card between the identifier and the label.
pub const CARD_LABEL: &'static str = r#""><div class="usage-account-heading"><strong>"#;

/// The card between the label and the class of the status.
pub const CARD_CLASS: &'static str = r#"</strong><span class="status "#;

/// The card between the class of the status and the status.
pub const CARD_STATUS: &'static str = r#"">"#;

/// The card between the status and the error.
pub const CARD_ERROR: &'static str = r#"</span>"#;

/// The card between the error and the port.
pub const CARD_PORT: &'static str = r#"</div><div class="usage-windows"><span class="empty">Loading current usage…</span></div><div class="account-fact"><small class="field-label">Port</small><code>"#;

/// The card between the port and the last request.
pub const CARD_LAST: &'static str = r#"</code></div><div class="account-fact last-request"><small class="field-label">Last request</small>"#;

/// The card between the last request and the address to log in again.
pub const CARD_REAUTH: &'static str = r#"</div><div class="account-actions actions"><form method="post" action="/accounts/"#;

/// The card between the address to log in again and the address to remove the account.
pub const CARD_REMOVE: &'static str = r#"/reauth"><button type="submit">Re-auth</button></form><form method="post" action="/accounts/"#;

/// The card behind the address to remove the account.
pub const CARD_END: &'static str = r#"/remove"><button type="submit">Remove</button></form></div></article>"#;

/// A page with a message up to its title.
pub const MESSAGE_TITLE: &'static str = r#"<!doctype html><html lang="en"><head><meta charset="utf-8"><meta name="viewport" content="width=device-width,initial-scale=1"><title>"#;

/// The page between the title and the heading.
pub const MESSAGE_HEADING: &'static str = r#"</title><style>body{font-family:ui-sans-serif,system-ui;margin:40px;line-height:1.5}main{max-width:760px}code{font-family:ui-monospace,SFMono-Regular,Menlo,Consolas,monospace}a{display:inline-block;margin-top:20px}</style></head><body><main><h1>"#;

/// The page between the heading and the message.
pub const MESSAGE_TEXT: &'static str = r#"</h1><p>"#;

/// The page between the message and the link.
pub const MESSAGE_LINK: &'static str = r#"</p><a href=""#;

/// The page behind the link.
pub const MESSAGE_END: &'static str = r#"">Back to dashboard</a></main></body></html>"#;

/// What stands for a character in a page.
pub open spec fn escaped_char(c: char) -> Seq<char> {
    if c == '&' {
        "&amp;"@
    } else if c == '<' {
        "&lt;"@
    } else if c == '>' {
        "&gt;"@
    } else if c == '"' {
        "&quot;"@
    } else if c == '\'' {
        "&#39;"@
    } else {
        seq![c]
    }
}

/// What stands for a text in a page.
pub open spec fn escaped(text: Seq<char>) -> Seq<char>
    decreases text.len(),
{
    if text.len() == 0 {
        Seq::empty()
    } else {
        escaped(text.drop_last()) + escaped_char(text.last())
    }
}

/// What stands for a text in a page.
pub fn esc(value: &str) -> (text: String)
    ensures
        text@ == escaped(value@),
{
    let mut text = String::new();
    assert(value@.take(0) =~= Seq::<char>::empty());
    for c in it: value.chars()
        invariant
            it.seq() == value@,
            text@ == escaped(value@.take(it.index() as int)),
    {
        proof {
            let next = value@.take(it.index() + 1);
            assert(next.drop_last() =~= value@.take(it.index() as int));
            assert(next.last() == c);
        }
        let ghost before = text@;
        match c {
            '&' => text.append("&amp;"),
            '<' => text.append("&lt;"),
            '>' => text.append("&gt;"),
            '"' => text.append("&quot;"),
            '\'' => text.append("&#39;"),
            _ => text.push(c),
        }
        assert(text@ =~= before + escaped_char(c));
    }
    assert(value@.take(value@.len() as int) =~= value@);
    text
}

/// What stands for a text in a page.
pub fn escape_html(value: &str) -> (text: String)
    ensures
        text@ == escaped(value@),
{
    esc(value)
}

/// Whether a character has a meaning in a page.
pub open spec fn is_markup(c: char) -> bool {
    c == '<' || c == '>' || c == '"' || c == '\''
}

/// No text can add to the markup of a page: what stands for it holds none of the characters that
/// begin or end a tag or a value.
pub proof fn law_escaped_text_is_no_markup(text: Seq<char>)
    ensures
        forall|i: int| 0 <= i < escaped(text).len() ==> !is_markup(#[trigger] escaped(text)[i]),
    decreases text.len(),
{
    if text.len() > 0 {
        law_escaped_text_is_no_markup(text.drop_last());
        let tail = escaped_char(text.last());
        reveal_strlit("&amp;");
        reveal_strlit("&lt;");
        reveal_strlit("&gt;");
        reveal_strlit("&quot;");
        reveal_strlit("&#39;");
        assert forall|i: int| 0 <= i < tail.len() implies !is_markup(#[trigger] tail[i]) by {}
        let head = escaped(text.drop_last());
        assert forall|i: int| 0 <= i < escaped(text).len() implies !is_markup(
            #[trigger] escaped(text)[i],
        ) by {
            if i < head.len() {
                assert(escaped(text)[i] == head[i]);
            } else {
                assert(escaped(text)[i] == tail[i - head.len()]);
            }
        }
    }
}

/// A page with a message and a link. The message is markup; the title and the link are texts.
pub open spec fn message_page_view(title: Seq<char>, message: Seq<char>, href: Seq<char>) -> Seq<
    char,
> {
    MESSAGE_TITLE@ + escaped(title) + MESSAGE_HEADING@ + escaped(title) + MESSAGE_TEXT@ + message
        + MESSAGE_LINK@ + escaped(href) + MESSAGE_END@
}

/// A page with a message and a link. The message is markup; the title and the link are texts.
pub fn message_page(title: &str, message: &str, href: &str) -> (page: String)
    ensures
        page@ == message_page_view(title@, message@, href@),
{
    let name = esc(title);
    let mut page = MESSAGE_TITLE.to_owned();
    page.append(name.as_str());
    page.append(MESSAGE_HEADING);
    page.append(name.as_str());
    page.append(MESSAGE_TEXT);
    page.append(message);
    page.append(MESSAGE_LINK);
    page.append(esc(href).as_str());
    page.append(MESSAGE_END);
    page
}

/// What the card of an account says of its last request.
pub open spec fn last_request_view(account: AccountView) -> Seq<char> {
    match account.last_request_at {
        Some(time) => "<time data-local-time=\""@ + escaped(time) + "\" datetime=\""@ + escaped(time)
            + "\">"@ + escaped(time) + "</time>"@ + match account.last_status {
            Some(status) => "<code>HTTP "@ + decimal(status as nat) + "</code>"@,
            None => Seq::empty(),
        },
        None => "<span class=\"empty\">None yet</span>"@,
    }
}

/// What the card of an account says of its last error.
pub open spec fn last_error_view(account: AccountView) -> Seq<char> {
    match account.last_error {
        Some(error) => "<small class=\"account-error\">"@ + escaped(error) + "</small>"@,
        None => Seq::empty(),
    }
}

/// The card of an account.
pub open spec fn card_view(account: AccountView) -> Seq<char> {
    let port = match account.port {
        Some(port) => port as nat,
        None => 0,
    };
    CARD_ID@ + escaped(account.id) + CARD_LABEL@ + escaped(label_view(account)) + CARD_CLASS@
        + escaped(account.status) + CARD_STATUS@ + escaped(account.status) + CARD_ERROR@
        + last_error_view(account) + CARD_PORT@ + decimal(port) + CARD_LAST@ + last_request_view(
        account,
    ) + CARD_REAUTH@ + escaped(account.id) + CARD_REMOVE@ + escaped(account.id) + CARD_END@
}

/// What the card of an account says of its last request.
fn last_request(account: &Account) -> (text: String)
    ensures
        text@ == last_request_view(account@),
{
    match &account.last_request_at {
        Some(time) => {
            let shown = esc(time.as_str());
            let mut text = "<time data-local-time=\"".to_owned();
            text.append(shown.as_str());
            text.append("\" datetime=\"");
            text.append(shown.as_str());
            text.append("\">");
            text.append(shown.as_str());
            text.append("</time>");
            let ghost base = text@;
            match account.last_status {
                Some(status) => {
                    text.append("<code>HTTP ");
                    text.append(number_text(status as u64).as_str());
                    text.append("</code>");
                    assert(text@ =~= base + ("<code>HTTP "@ + decimal(status as nat) + "</code>"@));
                },
                None => {
                    assert(text@ =~= base + Seq::<char>::empty());
                },
            }
            text
        },
        None => "<span class=\"empty\">None yet</span>".to_owned(),
    }
}

/// What the card of an account says of its last error.
fn last_error(account: &Account) -> (text: String)
    ensures
        text@ == last_error_view(account@),
{
    match &account.last_error {
        Some(error) => {
            let mut text = "<small class=\"account-error\">".to_owned();
            text.append(esc(error.as_str()).as_str());
            text.append("</small>");
            text
        },
        None => {
            let text = String::new();
            assert(text@ =~= Seq::<char>::empty());
            text
        },
    }
}

/// The card of an account.
pub fn card(account: &Account) -> (text: String)
    ensures
        text@ == card_view(account@),
{
    let id = esc(account.id.as_str());
    let status = esc(account.status.as_str());
    let port = match account.port {
        Some(port) => port,
        None => 0,
    };
    let mut text = CARD_ID.to_owned();
    text.append(id.as_str());
    text.append(CARD_LABEL);
    text.append(esc(account_label(account).as_str()).as_str());
    text.append(CARD_CLASS);
    text.append(status.as_str());
    text.append(CARD_STATUS);
    text.append(status.as_str());
    text.append(CARD_ERROR);
    text.append(last_error(account).as_str());
    text.append(CARD_PORT);
    text.append(number_text(port as u64).as_str());
    text.append(CARD_LAST);
    text.append(last_request(account).as_str());
    text.append(CARD_REAUTH);
    text.append(id.as_str());
    text.append(CARD_REMOVE);
    text.append(id.as_str());
    text.append(CARD_END);
    text
}

/// The cards of accounts.
pub open spec fn cards_view(accounts: Seq<AccountView>) -> Seq<char>
    decreases accounts.len(),
{
    if accounts.len() == 0 {
        Seq::empty()
    } else {
        cards_view(accounts.drop_last()) + card_view(accounts.last())
    }
}

/// The choice of a provider.
pub open spec fn option_view(provider: Provider, default_provider: Seq<char>) -> Seq<char> {
    "<option value=\""@ + escaped(provider.id@) + "\""@ + (if provider.id@ == default_provider {
        " selected"@
    } else {
        Seq::empty()
    }) + ">"@ + escaped(
        if provider.label@.len() == 0 {
            provider.id@
        } else {
            provider.label@
        },
    ) + "</option>"@
}

/// The identifiers of providers.
pub open spec fn provider_ids(providers: Seq<(String, Provider)>) -> Seq<Seq<char>> {
    providers.map_values(|entry: (String, Provider)| entry.1.id@)
}

/// The choices of providers at these positions.
pub open spec fn options_view(
    providers: Seq<(String, Provider)>,
    order: Seq<int>,
    default_provider: Seq<char>,
) -> Seq<char>
    decreases order.len(),
{
    if order.len() == 0 {
        Seq::empty()
    } else {
        options_view(providers, order.drop_last(), default_provider) + option_view(
            providers[order.last()].1,
            default_provider,
        )
    }
}

/// The dashboard.
pub open spec fn render_view(
    config: Config,
    accounts: Seq<AccountView>,
    removed: bool,
    oauth_paths: Seq<Seq<char>>,
) -> Seq<char> {
    let path = if oauth_paths.len() > 0 {
        oauth_paths[0]
    } else {
        "/auth/callback"@
    };
    let notice = if removed {
        "<div class=\"notice\">Account removed.</div>"@
    } else {
        Seq::empty()
    };
    let order = stable_order(provider_ids(config.providers@), config.providers@.len() as int);
    let cards = if accounts.len() == 0 {
        "<div class=\"empty\">No accounts yet. Add a ChatGPT account to get started.</div>"@
    } else {
        cards_view(accounts)
    };
    PAGE_HEAD@ + decimal(config.admin_port as nat) + PAGE_OAUTH@ + decimal(config.oauth_port as nat)
        + PAGE_PATH@ + escaped(path) + PAGE_RANGE@ + decimal(config.port_range.start as nat)
        + PAGE_TO@ + decimal(config.port_range.end as nat) + PAGE_NOTICE@ + notice + PAGE_OPTIONS@
        + options_view(config.providers@, order, config.default_provider@) + PAGE_CARDS@ + cards
        + PAGE_SCRIPT@ + DASHBOARD_SCRIPT@ + PAGE_END@
}

/// The choice of a provider.
fn option(provider: &Provider, default_provider: &str) -> (text: String)
    ensures
        text@ == option_view(*provider, default_provider@),
{
    let mut text = "<option value=\"".to_owned();
    text.append(esc(provider.id.as_str()).as_str());
    text.append("\"");
    let ghost base = text@;
    if text_eq(provider.id.as_str(), default_provider) {
        text.append(" selected");
    } else {
        assert(text@ =~= base + Seq::<char>::empty());
    }
    text.append(">");
    let label = if provider.label.as_str().is_empty() {
        provider.id.as_str()
    } else {
        provider.label.as_str()
    };
    text.append(esc(label).as_str());
    text.append("</option>");
    text
}

/// The choices of providers, in the order of their identifiers.
fn options(config: &Config) -> (text: String)
    ensures
        text@ == options_view(
            config.providers@,
            stable_order(provider_ids(config.providers@), config.providers@.len() as int),
            config.default_provider@,
        ),
{
    let mut ids: Vec<String> = Vec::new();
    let mut i: usize = 0;
    while i < config.providers.len()
        invariant
            i <= config.providers@.len(),
            texts(ids@) == provider_ids(config.providers@).take(i as int),
        decreases config.providers@.len() - i,
    {
        let ghost before = ids@;
        let id = config.providers[i].1.id.clone();
        ids.push(id);
        proof {
            assert(texts(ids@) =~= texts(before).push(id@));
            assert(provider_ids(config.providers@).take(i + 1) =~= provider_ids(
                config.providers@,
            ).take(i as int).push(id@));
        }
        i = i + 1;
    }
    assert(texts(ids@) =~= provider_ids(config.providers@));
    let order = sorted_positions(&ids);
    let ghost places = positions(order@);
    let mut text = String::new();
    let mut i: usize = 0;
    proof {
        assert(places.take(0) =~= Seq::<int>::empty());
        assert(text@ =~= Seq::<char>::empty());
    }
    while i < order.len()
        invariant
            i <= order@.len(),
            places == positions(order@),
            order@.len() == config.providers@.len(),
            forall|j: int| 0 <= j < order@.len() ==> #[trigger] order@[j] < config.providers@.len(),
            text@ == options_view(
                config.providers@,
                places.take(i as int),
                config.default_provider@,
            ),
        decreases order@.len() - i,
    {
        proof {
            let next = places.take(i + 1);
            assert(next.drop_last() =~= places.take(i as int));
            assert(next.last() == order@[i as int] as int);
        }
        let choice = option(&config.providers[order[i]].1, config.default_provider.as_str());
        text.append(choice.as_str());
        i = i + 1;
    }
    assert(places.take(order@.len() as int) =~= places);
    text
}

/// The cards of accounts.
fn cards(accounts: &Vec<Account>) -> (text: String)
    ensures
        text@ == cards_view(account_views(accounts@)),
{
    let ghost all = account_views(accounts@);
    let mut text = String::new();
    let mut i: usize = 0;
    proof {
        assert(all.take(0) =~= Seq::<AccountView>::empty());
        assert(text@ =~= Seq::<char>::empty());
    }
    while i < accounts.len()
        invariant
            i <= accounts@.len(),
            all == account_views(accounts@),
            text@ == cards_view(all.take(i as int)),
        decreases accounts@.len() - i,
    {
        proof {
            let next = all.take(i + 1);
            assert(next.drop_last() =~= all.take(i as int));
            assert(next.last() == accounts@[i as int]@);
        }
        text.append(card(&accounts[i]).as_str());
        i = i + 1;
    }
    assert(all.take(accounts@.len() as int) =~= all);
    text
}

/// The dashboard.
pub fn render(
    config: &Config,
    accounts: &Vec<Account>,
    removed: bool,
    oauth_paths: &Vec<String>,
) -> (page: String)
    ensures
        page@ == render_view(*config, account_views(accounts@), removed, texts(oauth_paths@)),
{
    let path = if oauth_paths.len() > 0 {
        oauth_paths[0].as_str()
    } else {
        "/auth/callback"
    };
    let mut page = PAGE_HEAD.to_owned();
    page.append(number_text(config.admin_port as u64).as_str());
    page.append(PAGE_OAUTH);
    page.append(number_text(config.oauth_port as u64).as_str());
    page.append(PAGE_PATH);
    page.append(esc(path).as_str());
    page.append(PAGE_RANGE);
    page.append(number_text(config.port_range.start as u64).as_str());
    page.append(PAGE_TO);
    page.append(number_text(config.port_range.end as u64).as_str());
    page.append(PAGE_NOTICE);
    let ghost base = page@;
    if removed {
        page.append("<div class=\"notice\">Account removed.</div>");
    } else {
        assert(page@ =~= base + Seq::<char>::empty());
    }
    page.append(PAGE_OPTIONS);
    page.append(options(config).as_str());
    page.append(PAGE_CARDS);
    if accounts.len() == 0 {
        page.append(
            "<div class=\"empty\">No accounts yet. Add a ChatGPT account to get started.</div>",
        );
    } else {
        page.append(cards(accounts).as_str());
    }
    page.append(PAGE_SCRIPT);
    page.append(DASHBOARD_SCRIPT);
    page.append(PAGE_END);
    page
}

/// In a page each character of a text that is markup is written by its name, and every other stands
/// for itself.
pub proof fn law_markup_is_written_by_name(text: Seq<char>, c: char)
    ensures
        escaped(Seq::empty()) == Seq::<char>::empty(),
        escaped(text.push('&')) == escaped(text) + "&amp;"@,
        escaped(text.push('<')) == escaped(text) + "&lt;"@,
        escaped(text.push('>')) == escaped(text) + "&gt;"@,
        escaped(text.push('"')) == escaped(text) + "&quot;"@,
        escaped(text.push('\'')) == escaped(text) + "&#39;"@,
        c != '&' && c != '<' && c != '>' && c != '"' && c != '\'' ==> escaped(text.push(c))
            == escaped(text).push(c),
{
    assert(text.push('&').drop_last() =~= text);
    assert(text.push('<').drop_last() =~= text);
    assert(text.push('>').drop_last() =~= text);
    assert(text.push('"').drop_last() =~= text);
    assert(text.push('\'').drop_last() =~= text);
    assert(text.push(c).drop_last() =~= text);
    if c != '&' && c != '<' && c != '>' && c != '"' && c != '\'' {
        assert(escaped(text) + seq![c] =~= escaped(text).push(c));
    }
}

pub(crate) proof fn lemma_occurs()
    ensures
        forall|part: Seq<char>, before: Seq<char>| #[trigger] occurs_in(part, before + part),
        forall|part: Seq<char>, text: Seq<char>, after: Seq<char>|
            occurs_in(part, text) ==> #[trigger] occurs_in(part, text + after),
{
    assert forall|part: Seq<char>, before: Seq<char>| #[trigger] occurs_in(part, before + part) by {
        let whole = before + part;
        let i = before.len() as int;
        assert(whole.subrange(i, i + part.len()) =~= part);
    }
    assert forall|part: Seq<char>, text: Seq<char>, after: Seq<char>|
        occurs_in(part, text) implies #[trigger] occurs_in(part, text + after) by {
        let i = choose|i: int|
            0 <= i && i + part.len() <= text.len() && #[trigger] text.subrange(i, i + part.len())
                == part;
        assert((text + after).subrange(i, i + part.len()) =~= part);
    }
}

proof fn lemma_occurs_within(part: Seq<char>, text: Seq<char>, whole: Seq<char>)
    requires
        occurs_in(part, text),
        occurs_in(text, whole),
    ensures
        occurs_in(part, whole),
{
    let i = choose|i: int|
        0 <= i && i + part.len() <= text.len() && #[trigger] text.subrange(i, i + part.len())
            == part;
    let j = choose|j: int|
        0 <= j && j + text.len() <= whole.len() && #[trigger] whole.subrange(j, j + text.len())
            == text;
    assert(whole.subrange(i + j, i + j + part.len()) =~= text.subrange(i, i + part.len()));
}

proof fn lemma_last_request(account: AccountView, time: Seq<char>)
    requires
        account.last_request_at == Some(time),
    ensures
        occurs_in(escaped(time), last_request_view(account)),
        account.last_status is Some ==> occurs_in(
            "<code>HTTP "@ + decimal(account.last_status->0 as nat) + "</code>"@,
            last_request_view(account),
        ),
{
    lemma_occurs();
}

/// The card of an account shows its identifier, what it is called, its status, its port, its last
/// error, and when its last request was and how that was answered, each as text.
pub proof fn law_card_shows_the_account(account: AccountView)
    ensures
        occurs_in(escaped(account.id), card_view(account)),
        occurs_in(escaped(label_view(account)), card_view(account)),
        occurs_in(escaped(account.status), card_view(account)),
        account.port is Some ==> occurs_in(decimal(account.port->0 as nat), card_view(account)),
        account.last_error is Some ==> occurs_in(escaped(account.last_error->0), card_view(account)),
        account.last_request_at is Some ==> occurs_in(
            escaped(account.last_request_at->0),
            card_view(account),
        ),
        account.last_request_at is Some && account.last_status is Some ==> occurs_in(
            "<code>HTTP "@ + decimal(account.last_status->0 as nat) + "</code>"@,
            card_view(account),
        ),
{
    lemma_occurs();
    assert(occurs_in(last_error_view(account), card_view(account)));
    assert(occurs_in(last_request_view(account), card_view(account)));
    if let Some(error) = account.last_error {
        assert(occurs_in(escaped(error), last_error_view(account)));
        lemma_occurs_within(escaped(error), last_error_view(account), card_view(account));
    }
    if let Some(time) = account.last_request_at {
        lemma_last_request(account, time);
        lemma_occurs_within(escaped(time), last_request_view(account), card_view(account));
        if let Some(status) = account.last_status {
            lemma_occurs_within(
                "<code>HTTP "@ + decimal(status as nat) + "</code>"@,
                last_request_view(account),
                card_view(account),
            );
        }
    }
}

proof fn lemma_cards(accounts: Seq<AccountView>, i: int)
    requires
        0 <= i < accounts.len(),
    ensures
        occurs_in(card_view(accounts[i]), cards_view(accounts)),
    decreases accounts.len(),
{
    lemma_occurs();
    if i < accounts.len() - 1 {
        lemma_cards(accounts.drop_last(), i);
    }
}

proof fn lemma_choices(
    providers: Seq<(String, Provider)>,
    order: Seq<int>,
    default_provider: Seq<char>,
    k: int,
)
    requires
        0 <= k < order.len(),
    ensures
        occurs_in(
            option_view(providers[order[k]].1, default_provider),
            options_view(providers, order, default_provider),
        ),
    decreases order.len(),
{
    lemma_occurs();
    if k < order.len() - 1 {
        lemma_choices(providers, order.drop_last(), default_provider, k);
    }
}

/// The dashboard shows the card of every account and offers every provider, and says where logins
/// come back to; without accounts, and where one was removed, it says so.
pub proof fn law_dashboard_shows_all(
    config: Config,
    accounts: Seq<AccountView>,
    removed: bool,
    oauth_paths: Seq<Seq<char>>,
    i: int,
    k: int,
)
    ensures
        ({
            let page = render_view(config, accounts, removed, oauth_paths);
            &&& 0 <= i < accounts.len() ==> occurs_in(card_view(accounts[i]), page)
            &&& 0 <= k < config.providers@.len() ==> occurs_in(
                option_view(config.providers@[k].1, config.default_provider@),
                page,
            )
            &&& accounts.len() == 0 ==> occurs_in(
                "<div class=\"empty\">No accounts yet. Add a ChatGPT account to get started.</div>"@,
                page,
            )
            &&& removed ==> occurs_in("<div class=\"notice\">Account removed.</div>"@, page)
            &&& oauth_paths.len() > 0 ==> occurs_in(escaped(oauth_paths[0]), page)
            &&& occurs_in(decimal(config.admin_port as nat), page)
            &&& occurs_in(decimal(config.oauth_port as nat), page)
        }),
{
    lemma_occurs();
    let page = render_view(config, accounts, removed, oauth_paths);
    let ids = provider_ids(config.providers@);
    let order = stable_order(ids, config.providers@.len() as int);
    let options = options_view(config.providers@, order, config.default_provider@);
    assert(occurs_in(options, page));
    if 0 <= i < accounts.len() {
        assert(occurs_in(cards_view(accounts), page));
        lemma_cards(accounts, i);
        lemma_occurs_within(card_view(accounts[i]), cards_view(accounts), page);
    }
    if 0 <= k < config.providers@.len() {
        law_sorting(ids);
        assert(order.contains(k));
        let at = choose|at: int| 0 <= at < order.len() && order[at] == k;
        lemma_choices(config.providers@, order, config.default_provider@, at);
        lemma_occurs_within(
            option_view(config.providers@[k].1, config.default_provider@),
            options,
            page,
        );
    }
}

/// The default provider, and no other, is the one that is chosen beforehand.
pub proof fn law_default_provider_is_chosen(provider: Provider, default_provider: Seq<char>)
    ensures
        ({
            let shown = if provider.label@.len() == 0 {
                provider.id@
            } else {
                provider.label@
            };
            &&& provider.id@ == default_provider ==> option_view(provider, default_provider)
                == "<option value=\""@ + escaped(provider.id@) + "\""@ + " selected"@ + ">"@ + escaped(
                shown,
            ) + "</option>"@
            &&& provider.id@ != default_provider ==> option_view(provider, default_provider)
                == "<option value=\""@ + escaped(provider.id@) + "\""@ + ">"@ + escaped(shown)
                + "</option>"@
        }),
{
    let base = "<option value=\""@ + escaped(provider.id@) + "\""@;
    assert(base + Seq::<char>::empty() =~= base);
}

/// A message page shows its title, its message and its link.
pub proof fn law_message_page_shows_all(title: Seq<char>, message: Seq<char>, href: Seq<char>)
    ensures
        occurs_in(escaped(title), message_page_view(title, message, href)),
        occurs_in(message, message_page_view(title, message, href)),
        occurs_in(escaped(href), message_page_view(title, message, href)),
{
    lemma_occurs();
}

}
