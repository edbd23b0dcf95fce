//! Errors, as they are answered.

use crate::json::{json_str, json_u64, no_fields, Json, JsonMap, JsonView};
use vstd::prelude::*;
use vstd::string::*;

verus! {

/// Why a request failed: the HTTP status to answer with and a message.
#[derive(Debug)]
pub struct AppError {
    pub status: u16,
    pub message: String,
    pub details: Option<Json>,
    pub auth: bool,
}

/// What an error says.
#[verifier::ext_equal]
pub struct ErrorView {
    pub status: u16,
    pub message: Seq<char>,
    pub details: Option<JsonView>,
    pub auth: bool,
}

impl View for AppError {
    type V = ErrorView;

    open spec fn view(&self) -> ErrorView {
        ErrorView {
            status: self.status,
            message: self.message@,
            details: match self.details {
                Some(details) => Some(details@),
                None => None,
            },
            auth: self.auth,
        }
    }
}

/// An error with this status and message.
pub open spec fn error_view(status: u16, message: Seq<char>) -> ErrorView {
    ErrorView { status, message, details: None, auth: false }
}

/// An error of an account that cannot authenticate.
pub open spec fn auth_error(message: Seq<char>) -> ErrorView {
    ErrorView { status: 401, message, details: None, auth: true }
}

/// The error of an account that is not there.
pub open spec fn account_not_found() -> ErrorView {
    error_view(404, "Account not found"@)
}

/// Whether a status says that the server failed.
pub open spec fn is_server_error(status: u16) -> bool {
    500 <= status < 600
}

/// Whether a status says that a request succeeded.
pub open spec fn is_success(status: u16) -> bool {
    200 <= status < 300
}

/// Whether a status says that a request succeeded.
pub fn success(status: u16) -> (result: bool)
    ensures
        result == is_success(status),
{
    200 <= status && status < 300
}

/// The document that an error is answered with.
pub open spec fn error_document(error: ErrorView) -> JsonView {
    JsonView::Object(
        no_fields().insert(
            "error"@,
            JsonView::Object(
                no_fields().insert("message"@, json_str(error.message)).insert(
                    "type"@,
                    json_str(
                        if error.auth {
                            "auth_error"@
                        } else if is_server_error(error.status) {
                            "server_error"@
                        } else {
                            "invalid_request_error"@
                        },
                    ),
                ).insert(
                    "details"@,
                    match error.details {
                        Some(details) => details,
                        None => JsonView::Null,
                    },
                ),
            ),
        ),
    )
}

/// The document that says that a request cannot be served.
pub open spec fn refusal_document(message: Seq<char>) -> JsonView {
    JsonView::Object(
        no_fields().insert(
            "error"@,
            JsonView::Object(
                no_fields().insert("message"@, json_str(message)).insert(
                    "type"@,
                    json_str("invalid_request_error"@),
                ),
            ),
        ),
    )
}

/// The document that says that a request cannot be served.
pub fn refusal(message: &str) -> (document: Json)
    ensures
        document@ == refusal_document(message@),
{
    let mut inner = JsonMap::new();
    inner.insert("message", Json::text(message));
    inner.insert("type", Json::text("invalid_request_error"));
    let mut map = JsonMap::new();
    map.insert("error", Json::Object(inner));
    Json::Object(map)
}

impl AppError {
    /// An error with this status and message.
    pub fn new(status: u16, message: &str) -> (error: AppError)
        ensures
            error@ == error_view(status, message@),
    {
        AppError { status, message: message.to_owned(), details: None, auth: false }
    }

    /// An error of the proxy itself.
    pub fn internal(message: &str) -> (error: AppError)
        ensures
            error@ == error_view(500, message@),
    {
        AppError::new(500, message)
    }

    /// An error of an account that cannot authenticate.
    pub fn auth(message: &str) -> (error: AppError)
        ensures
            error@ == auth_error(message@),
    {
        AppError { status: 401, message: message.to_owned(), details: None, auth: true }
    }

    /// The document that the error is answered with.
    pub fn document(&self) -> (document: Json)
        ensures
            document@ == error_document(self@),
    {
        let mut inner = JsonMap::new();
        inner.insert("message", Json::text(self.message.as_str()));
        inner.insert(
            "type",
            Json::text(
                if self.auth {
                    "auth_error"
                } else if self.fails_server() {
                    "server_error"
                } else {
                    "invalid_request_error"
                },
            ),
        );
        inner.insert(
            "details",
            match &self.details {
                Some(details) => details.clone(),
                None => Json::Null,
            },
        );
        let mut map = JsonMap::new();
        map.insert("error", Json::Object(inner));
        Json::Object(map)
    }

    /// Whether the error is the server's fault.
    pub fn fails_server(&self) -> (result: bool)
        ensures
            result == is_server_error(self.status),
    {
        500 <= self.status && self.status < 600
    }

    /// The record that is logged when the server is at fault.
    pub fn log_record(&self) -> (record: Option<Json>)
        ensures
            record is Some == is_server_error(self.status),
            record matches Some(json) ==> json@ == server_error_record(self@),
    {
        if !self.fails_server() {
            return None;
        }
        let mut map = JsonMap::new();
        map.insert("event", Json::text("server_error"));
        map.insert("status", Json::count(self.status as u64));
        map.insert("message", Json::text(self.message.as_str()));
        Some(Json::Object(map))
    }
}

/// The record that is logged when the server is at fault.
pub open spec fn server_error_record(error: ErrorView) -> JsonView {
    JsonView::Object(
        no_fields().insert("event"@, json_str("server_error"@)).insert(
            "status"@,
            json_u64(error.status as u64),
        ).insert("message"@, json_str(error.message)),
    )
}

/// An error is answered with its message, its details, and whose fault it is: that of the
/// credentials, of the server or of the request.
pub proof fn law_error_says_whose_fault_it_is(error: ErrorView)
    ensures
        ({
            let document = error_document(error);
            &&& document.str_at2("error"@, "message"@) == Some(error.message)
            &&& error.auth ==> document.str_at2("error"@, "type"@) == Some("auth_error"@)
            &&& !error.auth && 500 <= error.status < 600 ==> document.str_at2("error"@, "type"@)
                == Some("server_error"@)
            &&& !error.auth && !(500 <= error.status < 600) ==> document.str_at2("error"@, "type"@)
                == Some("invalid_request_error"@)
            &&& error.details is Some ==> document.get2("error"@, "details"@) == error.details
            &&& error.details is None ==> document.get2("error"@, "details"@) == Some(JsonView::Null)
        }),
{
    reveal_strlit("message");
    reveal_strlit("type");
    reveal_strlit("details");
    assert("message"@.len() == 7 && "type"@.len() == 4 && "details"@.len() == 7);
    assert("message"@[0] != "details"@[0]);
}

/// A refusal is answered with its message as a fault of the request.
pub proof fn law_refusal_says_why(message: Seq<char>)
    ensures
        refusal_document(message).str_at2("error"@, "message"@) == Some(message),
        refusal_document(message).str_at2("error"@, "type"@) == Some("invalid_request_error"@),
{
    reveal_strlit("message");
    reveal_strlit("type");
    assert("message"@.len() == 7 && "type"@.len() == 4);
}

/// An error of the server is logged with its status and its message.
pub proof fn law_server_errors_are_logged(error: ErrorView)
    ensures
        server_error_record(error).str_at("event"@) == Some("server_error"@),
        server_error_record(error).u64_at("status"@) == Some(error.status as u64),
        server_error_record(error).str_at("message"@) == Some(error.message),
{
    reveal_strlit("event");
    reveal_strlit("status");
    reveal_strlit("message");
    assert("event"@.len() == 5 && "status"@.len() == 6 && "message"@.len() == 7);
}

/// An error of an account that cannot authenticate is always 401 and marked as such; any other has
/// the status that it is given.
pub proof fn law_errors_have_their_status(status: u16, message: Seq<char>)
    ensures
        auth_error(message).status == 401 && auth_error(message).auth && auth_error(message).message
            == message,
        error_view(status, message).status == status && !error_view(status, message).auth
            && error_view(status, message).message == message,
        account_not_found().status == 404,
{
}

}
