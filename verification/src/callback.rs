//! Where logins come back to.

use crate::accounts::{account_label, label_view};
use crate::config::Config;
use crate::dashboard::{
    escape_html, escaped, law_message_page_shows_all, message_page, message_page_view,
};
use crate::errors::{error_view, AppError, ErrorView};
use crate::model::{Account, AccountView};
use crate::outside::{pair_views, read_url, url_parts};
use crate::text::{occurs_in, text_eq, texts};
use crate::urls::{admin_url, admin_url_view, base_url, base_url_view, oauth_paths, oauth_paths_view};
use vstd::prelude::*;
use vstd::string::*;

verus! {

/// What is done for a request to the listener for logins.
#[derive(Debug)]
pub enum Callback {
    /// A page is shown, with this status.
    Page(u16, String),
    /// The code is exchanged for tokens, for the login with this state.
    Exchange { code: String, state: String },
    /// The request fails.
    Fail(AppError),
}

/// What is done for a request, as contracts speak of it.
pub enum CallbackView {
    Page(u16, Seq<char>),
    Exchange { code: Seq<char>, state: Seq<char> },
    Fail(ErrorView),
}

impl View for Callback {
    type V = CallbackView;

    open spec fn view(&self) -> CallbackView {
        match self {
            Callback::Page(status, html) => CallbackView::Page(*status, html@),
            Callback::Exchange { code, state } => CallbackView::Exchange {
                code: code@,
                state: state@,
            },
            Callback::Fail(error) => CallbackView::Fail(error@),
        }
    }
}

/// The value of a parameter; of more values the last.
pub open spec fn param(params: Seq<(Seq<char>, Seq<char>)>, name: Seq<char>) -> Option<Seq<char>>
    decreases params.len(),
{
    if params.len() == 0 {
        None
    } else if params.last().0 == name {
        Some(params.last().1)
    } else {
        param(params.drop_last(), name)
    }
}

/// The value of a parameter; of more values the last.
fn find_param<'a>(params: &'a Vec<(String, String)>, name: &str) -> (value: Option<&'a String>)
    ensures
        param(pair_views(params@), name@) == (match value {
            Some(value) => Some(value@),
            None => None,
        }),
{
    let ghost all = pair_views(params@);
    let n = params.len();
    let mut i = n;
    assert(all.take(n as int) =~= all);
    while i > 0
        invariant
            i <= n,
            n == params@.len(),
            all == pair_views(params@),
            param(all, name@) == param(all.take(i as int), name@),
        decreases i,
    {
        assert(all.take(i as int).drop_last() =~= all.take(i - 1));
        assert(all.take(i as int).last() == (params@[i - 1].0@, params@[i - 1].1@));
        if text_eq(params[i - 1].0.as_str(), name) {
            return Some(&params[i - 1].1);
        }
        i = i - 1;
    }
    None
}

/// The error of a request that is no answer to a login.
pub open spec fn incomplete() -> ErrorView {
    error_view(400, "OAuth callback is missing code or state"@)
}

/// What is done for a request to the listener for logins, by its method, path and parameters.
pub open spec fn callback_of(
    config: Config,
    method: Seq<char>,
    path: Seq<char>,
    params: Seq<(Seq<char>, Seq<char>)>,
) -> CallbackView {
    let home = admin_url_view(config, "/"@);
    if method == "GET"@ && path == "/"@ {
        CallbackView::Page(
            200,
            message_page_view(
                "OAuth Redirect Listener"@,
                "This listener is waiting for an OAuth callback. Return to the dashboard to add an account."@,
                home,
            ),
        )
    } else if method != "GET"@ || !oauth_paths_view(config).contains(path) {
        CallbackView::Page(
            404,
            message_page_view("Not found"@, "No OAuth route matched this request."@, home),
        )
    } else {
        match param(params, "error"@) {
            Some(error) => {
                let description = match param(params, "error_description"@) {
                    Some(description) => description,
                    None => "The provider rejected the login request."@,
                };
                CallbackView::Page(
                    400,
                    message_page_view(
                        "Login failed"@,
                        escaped(error) + ": "@ + escaped(description),
                        home,
                    ),
                )
            },
            None => match (param(params, "code"@), param(params, "state"@)) {
                (Some(code), Some(state)) => CallbackView::Exchange { code, state },
                _ => CallbackView::Fail(incomplete()),
            },
        }
    }
}

/// Whether `list` holds `text`.
fn holds(list: &Vec<String>, text: &str) -> (found: bool)
    ensures
        found == texts(list@).contains(text@),
{
    let mut i: usize = 0;
    while i < list.len()
        invariant
            i <= list@.len(),
            forall|j: int| 0 <= j < i ==> texts(list@)[j] != text@,
        decreases list@.len() - i,
    {
        if text_eq(list[i].as_str(), text) {
            assert(texts(list@)[i as int] == text@);
            return true;
        }
        i = i + 1;
    }
    false
}

/// What is done for a request to the listener for logins, by its method, path and parameters.
pub fn callback_with(config: &Config, method: &str, path: &str, params: &Vec<(String, String)>) -> (step:
    Callback)
    ensures
        step@ == callback_of(*config, method@, path@, pair_views(params@)),
{
    let home = admin_url(config, "/");
    let get = text_eq(method, "GET");
    if get && text_eq(path, "/") {
        return Callback::Page(
            200,
            message_page(
                "OAuth Redirect Listener",
                "This listener is waiting for an OAuth callback. Return to the dashboard to add an account.",
                home.as_str(),
            ),
        );
    }
    if !get || !holds(&oauth_paths(config), path) {
        return Callback::Page(
            404,
            message_page("Not found", "No OAuth route matched this request.", home.as_str()),
        );
    }
    if let Some(error) = find_param(params, "error") {
        let description = match find_param(params, "error_description") {
            Some(description) => description.as_str(),
            None => "The provider rejected the login request.",
        };
        let mut message = escape_html(error.as_str());
        message.append(": ");
        message.append(escape_html(description).as_str());
        return Callback::Page(
            400,
            message_page("Login failed", message.as_str(), home.as_str()),
        );
    }
    match (find_param(params, "code"), find_param(params, "state")) {
        (Some(code), Some(state)) => Callback::Exchange {
            code: code.clone(),
            state: state.clone(),
        },
        _ => Callback::Fail(AppError::new(400, "OAuth callback is missing code or state")),
    }
}

/// What is done for a request to the listener for logins, with what reading its address gives.
pub open spec fn callback_at(
    config: Config,
    method: Seq<char>,
    parts: Result<(Seq<char>, Seq<(Seq<char>, Seq<char>)>), Seq<char>>,
) -> CallbackView {
    match parts {
        Ok((path, params)) => callback_of(config, method, path, params),
        Err(message) => CallbackView::Fail(error_view(400, message)),
    }
}

/// What is done for a request to the listener for logins.
pub fn callback(config: &Config, method: &str, uri: &str) -> (step: Callback)
    ensures
        step@ == callback_at(*config, method@, url_parts("http://localhost"@ + uri@)),
{
    let mut url = "http://localhost".to_owned();
    url.append(uri);
    match read_url(url.as_str()) {
        Ok((path, params)) => callback_with(config, method, path.as_str(), &params),
        Err(message) => Callback::Fail(AppError::new(400, message.as_str())),
    }
}

/// The error of a login that is not known, or not known any more.
pub fn unknown_state() -> (error: AppError)
    ensures
        error@ == error_view(
            400,
            "OAuth state was not recognized. Start login again from the dashboard."@,
        ),
{
    AppError::new(400, "OAuth state was not recognized. Start login again from the dashboard.")
}

/// The page that a login ends with.
pub open spec fn login_page_view(config: Config, account: AccountView) -> Seq<char> {
    message_page_view(
        "Login complete"@,
        escaped(label_view(account)) + " is available at <code>"@ + escaped(
            base_url_view(config.public_host@, account),
        ) + "</code>."@,
        admin_url_view(config, "/?account="@ + account.id),
    )
}

/// The page that a login ends with: it says where the account is served and leads back to the
/// dashboard.
pub fn login_page(config: &Config, account: &Account) -> (page: String)
    ensures
        page@ == login_page_view(*config, account@),
{
    let mut message = escape_html(account_label(account).as_str());
    message.append(" is available at <code>");
    message.append(escape_html(base_url(config, account).as_str()).as_str());
    message.append("</code>.");
    let mut suffix = "/?account=".to_owned();
    suffix.append(account.id.as_str());
    message_page("Login complete", message.as_str(), admin_url(config, suffix.as_str()).as_str())
}

/// A provider that refuses a login cannot add to the markup of the page that says so.
pub proof fn law_refusal_is_no_markup(error: Seq<char>, description: Seq<char>)
    ensures
        forall|i: int|
            0 <= i < (escaped(error) + ": "@ + escaped(description)).len()
                ==> !crate::dashboard::is_markup(
                #[trigger] (escaped(error) + ": "@ + escaped(description))[i],
            ),
{
    crate::dashboard::law_escaped_text_is_no_markup(error);
    crate::dashboard::law_escaped_text_is_no_markup(description);
    reveal_strlit(": ");
    let text = escaped(error) + ": "@ + escaped(description);
    let n = escaped(error).len();
    assert forall|i: int| 0 <= i < text.len() implies !crate::dashboard::is_markup(
        #[trigger] text[i],
    ) by {
        if i < n {
            assert(text[i] == escaped(error)[i]);
        } else if i < n + 2 {
            assert(text[i] == ": "@[i - n]);
        } else {
            assert(text[i] == escaped(description)[i - n - 2]);
        }
    }
}

proof fn lemma_param(params: Seq<(Seq<char>, Seq<char>)>, name: Seq<char>)
    ensures
        match param(params, name) {
            Some(value) => exists|k: int|
                #![trigger params[k]]
                {
                    &&& 0 <= k < params.len()
                    &&& params[k] == (name, value)
                    &&& forall|j: int| k < j < params.len() ==> (#[trigger] params[j]).0 != name
                },
            None => forall|j: int| 0 <= j < params.len() ==> (#[trigger] params[j]).0 != name,
        },
    decreases params.len(),
{
    if params.len() > 0 {
        let short = params.drop_last();
        if params.last().0 == name {
            assert(params[params.len() - 1] == (name, params.last().1));
        } else {
            lemma_param(short, name);
            assert(forall|j: int| 0 <= j < short.len() ==> short[j] == params[j]);
            match param(short, name) {
                Some(value) => {
                    let k = choose|k: int|
                        #![trigger short[k]]
                        {
                            &&& 0 <= k < short.len()
                            &&& short[k] == (name, value)
                            &&& forall|j: int| k < j < short.len() ==> (#[trigger] short[j]).0 != name
                        };
                    assert(params[k] == (name, value));
                    assert forall|j: int| k < j < params.len() implies (#[trigger] params[j]).0
                        != name by {
                        if j < short.len() {
                            assert(short[j].0 != name);
                        }
                    }
                },
                None => {
                    assert forall|j: int| 0 <= j < params.len() implies (#[trigger] params[j]).0
                        != name by {
                        if j < short.len() {
                            assert(short[j].0 != name);
                        }
                    }
                },
            }
        }
    }
}

/// Whether a parameter is given.
pub open spec fn is_given(params: Seq<(Seq<char>, Seq<char>)>, name: Seq<char>) -> bool {
    exists|k: int| 0 <= k < params.len() && (#[trigger] params[k]).0 == name
}

/// A login that comes back to a path of a provider goes on exactly if no error is given and both a
/// code and a state are, with the last values of these; one with an error is shown as failed, and any
/// other is an error.
pub proof fn law_login_comes_back(
    config: Config,
    method: Seq<char>,
    path: Seq<char>,
    params: Seq<(Seq<char>, Seq<char>)>,
    c: int,
    s: int,
)
    ensures
        ({
            let here = method == "GET"@ && path != "/"@ && oauth_paths_view(config).contains(path);
            let step = callback_of(config, method, path, params);
            &&& step is Exchange <==> here && !is_given(params, "error"@) && is_given(
                params,
                "code"@,
            ) && is_given(params, "state"@)
            &&& step is Exchange && 0 <= c < params.len() && params[c].0 == "code"@ && (forall|k: int|
                c < k < params.len() ==> (#[trigger] params[k]).0 != "code"@) ==> step->code
                == params[c].1
            &&& step is Exchange && 0 <= s < params.len() && params[s].0 == "state"@ && (forall|
                k: int,
            |
                s < k < params.len() ==> (#[trigger] params[k]).0 != "state"@) ==> step->state
                == params[s].1
            &&& step is Fail <==> here && !is_given(params, "error"@) && !(is_given(params, "code"@)
                && is_given(params, "state"@))
            &&& step matches CallbackView::Fail(error) ==> error.status == 400
            &&& here && is_given(params, "error"@) ==> (step matches CallbackView::Page(status, _)
                && status == 400)
            &&& method == "GET"@ && path == "/"@ ==> (step matches CallbackView::Page(status, _)
                && status == 200)
            &&& !here && !(method == "GET"@ && path == "/"@) ==> (step matches CallbackView::Page(
                status,
                _,
            ) && status == 404)
        }),
{
    lemma_param(params, "error"@);
    lemma_param(params, "code"@);
    lemma_param(params, "state"@);
    if param(params, "error"@) is Some {
        assert(is_given(params, "error"@));
    }
    if let Some(code) = param(params, "code"@) {
        let k = choose|k: int|
            #![trigger params[k]]
            {
                &&& 0 <= k < params.len()
                &&& params[k] == ("code"@, code)
                &&& forall|j: int| k < j < params.len() ==> (#[trigger] params[j]).0 != "code"@
            };
        assert(params[k].0 == "code"@);
    }
    if let Some(state) = param(params, "state"@) {
        let k = choose|k: int|
            #![trigger params[k]]
            {
                &&& 0 <= k < params.len()
                &&& params[k] == ("state"@, state)
                &&& forall|j: int| k < j < params.len() ==> (#[trigger] params[j]).0 != "state"@
            };
        assert(params[k].0 == "state"@);
    }
}

/// The page for a login that failed shows the error and its description, or that the provider
/// rejected the login where it gives none; the page for one that succeeded shows what the account is
/// called and where it is served.
pub proof fn law_login_pages_say_what_happened(
    config: Config,
    path: Seq<char>,
    error: Seq<char>,
    description: Seq<char>,
    account: AccountView,
)
    requires
        path != "/"@,
        oauth_paths_view(config).contains(path),
    ensures
        ({
            let described = seq![("error"@, error), ("error_description"@, description)];
            let bare = seq![("error"@, error)];
            let full = callback_of(config, "GET"@, path, described);
            let short = callback_of(config, "GET"@, path, bare);
            &&& full matches CallbackView::Page(_, page) && occurs_in(
                escaped(error) + ": "@ + escaped(description),
                page,
            )
            &&& short matches CallbackView::Page(_, page) && occurs_in(
                escaped(error) + ": "@ + escaped("The provider rejected the login request."@),
                page,
            )
        }),
        occurs_in(
            escaped(label_view(account)) + " is available at <code>"@ + escaped(
                base_url_view(config.public_host@, account),
            ) + "</code>."@,
            login_page_view(config, account),
        ),
{
    reveal_strlit("error");
    reveal_strlit("error_description");
    reveal_strlit("code");
    reveal_strlit("state");
    assert("error"@.len() == 5 && "error_description"@.len() == 17 && "code"@.len() == 4);
    assert("state"@.len() == 5);
    assert("error"@[0] != "state"@[0]);
    let home = admin_url_view(config, "/"@);
    let described = seq![("error"@, error), ("error_description"@, description)];
    let bare = seq![("error"@, error)];
    assert(described.drop_last() =~= bare);
    assert(bare.drop_last() =~= Seq::<(Seq<char>, Seq<char>)>::empty());
    assert(param(bare, "error"@) == Some(error));
    assert(param(bare.drop_last(), "error_description"@) is None);
    assert(param(bare, "error_description"@) is None);
    assert(param(described, "error"@) == Some(error));
    assert(param(described, "error_description"@) == Some(description));
    law_message_page_shows_all(
        "Login failed"@,
        escaped(error) + ": "@ + escaped(description),
        home,
    );
    law_message_page_shows_all(
        "Login failed"@,
        escaped(error) + ": "@ + escaped("The provider rejected the login request."@),
        home,
    );
    law_message_page_shows_all(
        "Login complete"@,
        escaped(label_view(account)) + " is available at <code>"@ + escaped(
            base_url_view(config.public_host@, account),
        ) + "</code>."@,
        admin_url_view(config, "/?account="@ + account.id),
    );
}

}
