//! What the bridge answers when it cannot serve a request.
use vstd::prelude::*;
use crate::json::{object_of, Json, Object, Tree};
use crate::text::{cat3, decimal_digits, decimal_text};

verus! {

/// An error that is answered with a status and an envelope.
#[derive(Debug)]
pub enum BridgeError {
    /// The request is invalid.
    InvalidRequest { message: String, code: &'static str, detail: Option<Json> },
    /// The request holds an input item that is not supported.
    UnsupportedInputItem { message: String, item_type: String },
    /// Upstream failed or answered with an error.
    Upstream { message: String, code: &'static str, status: u16, detail: Option<Json> },
    /// Streaming failed.
    Stream { message: String, code: &'static str },
    /// The response to continue is not known.
    SessionNotFound { message: String },
    /// The request body is too large.
    RequestBodyTooLarge { message: String },
    /// The request waited too long for its turn.
    Overloaded { message: String },
    /// The request carries no key that is known.
    Unauthorized { message: String },
}

/// Whether a number can be the status of a response.
pub open spec fn is_status(status: int) -> bool {
    100 <= status <= 999
}

/// An upstream status, or 502 where it can be no status.
pub open spec fn upstream_status(status: int) -> int {
    if is_status(status) {
        status
    } else {
        502
    }
}

impl BridgeError {
    /// The status of the answer.
    pub open spec fn status_code(self) -> int {
        match self {
            BridgeError::InvalidRequest { .. } => 400,
            BridgeError::UnsupportedInputItem { .. } => 400,
            BridgeError::Upstream { status, .. } => status as int,
            BridgeError::Stream { .. } => 500,
            BridgeError::SessionNotFound { .. } => 404,
            BridgeError::RequestBodyTooLarge { .. } => 413,
            BridgeError::Overloaded { .. } => 503,
            BridgeError::Unauthorized { .. } => 401,
        }
    }

    /// The type of the error.
    pub open spec fn kind(self) -> Seq<char> {
        match self {
            BridgeError::Upstream { .. } => "upstream_error"@,
            BridgeError::Stream { .. } => "stream_error"@,
            BridgeError::Overloaded { .. } => "overloaded_error"@,
            BridgeError::Unauthorized { .. } => "authentication_error"@,
            _ => "invalid_request_error"@,
        }
    }

    /// The message of the error.
    pub open spec fn text(self) -> Seq<char> {
        match self {
            BridgeError::InvalidRequest { message, .. } => message@,
            BridgeError::UnsupportedInputItem { message, .. } => message@,
            BridgeError::Upstream { message, .. } => message@,
            BridgeError::Stream { message, .. } => message@,
            BridgeError::SessionNotFound { message } => message@,
            BridgeError::RequestBodyTooLarge { message } => message@,
            BridgeError::Overloaded { message } => message@,
            BridgeError::Unauthorized { message } => message@,
        }
    }

    /// The code of the error.
    pub open spec fn code_text(self) -> Seq<char> {
        match self {
            BridgeError::InvalidRequest { code, .. } => code@,
            BridgeError::UnsupportedInputItem { .. } => "unsupported_input_item"@,
            BridgeError::Upstream { code, .. } => code@,
            BridgeError::Stream { code, .. } => code@,
            BridgeError::SessionNotFound { .. } => "previous_response_not_found"@,
            BridgeError::RequestBodyTooLarge { .. } => "request_too_large"@,
            BridgeError::Overloaded { .. } => "bridge_overloaded"@,
            BridgeError::Unauthorized { .. } => "invalid_api_key"@,
        }
    }

    /// The members of the error that not every error has.
    pub open spec fn extras(self, m: Map<Seq<char>, Tree>) -> Map<Seq<char>, Tree> {
        match self {
            BridgeError::UnsupportedInputItem { item_type, .. } => m.insert(
                "item_type"@,
                Tree::Str(item_type@),
            ),
            BridgeError::InvalidRequest { detail: Some(d), .. } => m.insert("detail"@, d@),
            BridgeError::Upstream { detail: Some(d), .. } => m.insert("detail"@, d@),
            _ => m,
        }
    }

    /// The body of the answer.
    pub open spec fn body(self) -> Tree {
        let base = Map::empty().insert("message"@, Tree::Str(self.text())).insert(
            "type"@,
            Tree::Str(self.kind()),
        ).insert("code"@, Tree::Str(self.code_text()));
        Tree::Object(Map::empty().insert("error"@, Tree::Object(self.extras(base))))
    }

    /// Whether the error refuses a request with a message and a code, and nothing more.
    pub open spec fn refuses(self, message: Seq<char>, code: Seq<char>) -> bool {
        self matches BridgeError::InvalidRequest { message: m, code: c, detail: None } && m@
            == message && c@ == code
    }

    /// An invalid request.
    pub fn invalid_request(message: &str, code: &'static str) -> (r: BridgeError)
        ensures
            r.refuses(message@, code@),
    {
        BridgeError::InvalidRequest { message: message.to_owned(), code, detail: None }
    }

    /// An upstream failure without a status of its own.
    pub fn upstream(message: &str, code: &'static str) -> (r: BridgeError)
        ensures
            r matches BridgeError::Upstream { message: m, code: c, status, detail: None } && m@
                == message@ && c@ == code@ && status == 502,
    {
        BridgeError::Upstream { message: message.to_owned(), code, status: 502, detail: None }
    }

    /// An upstream failure with the status and the body that upstream gave.
    pub fn upstream_with_status(
        message: &str,
        code: &'static str,
        status: u16,
        detail: Option<Json>,
    ) -> (r: BridgeError)
        ensures
            r matches BridgeError::Upstream { message: m, code: c, status: s, detail: d } && m@
                == message@ && c@ == code@ && s == upstream_status(status as int) && d == detail,
    {
        let status: u16 = if 100 <= status && status <= 999 {
            status
        } else {
            502
        };
        BridgeError::Upstream { message: message.to_owned(), code, status, detail }
    }

    /// A request body that exceeds the limit.
    pub fn request_body_too_large(max_body_bytes: usize) -> (r: BridgeError)
        ensures
            r matches BridgeError::RequestBodyTooLarge { message } && message@
                == "Request body too large: exceeds max "@ + decimal_digits(max_body_bytes as nat)
                + " bytes"@,
    {
        let digits = decimal_text(max_body_bytes as u64);
        let message = cat3(
            "Request body too large: exceeds max ",
            digits.as_str(),
            " bytes",
        );
        BridgeError::RequestBodyTooLarge { message }
    }

    /// A request that waited too long for its turn. `wait` is how long, in seconds.
    pub fn overloaded(wait: &str) -> (r: BridgeError)
        ensures
            r matches BridgeError::Overloaded { message } && message@
                == "Bridge is overloaded: no capacity became free within "@ + wait@ + " seconds"@,
    {
        let message = cat3(
            "Bridge is overloaded: no capacity became free within ",
            wait,
            " seconds",
        );
        BridgeError::Overloaded { message }
    }

    /// The status of the answer.
    pub fn status(&self) -> (r: u16)
        ensures
            r == self.status_code(),
    {
        match self {
            BridgeError::InvalidRequest { .. } => 400,
            BridgeError::UnsupportedInputItem { .. } => 400,
            BridgeError::Upstream { status, .. } => *status,
            BridgeError::Stream { .. } => 500,
            BridgeError::SessionNotFound { .. } => 404,
            BridgeError::RequestBodyTooLarge { .. } => 413,
            BridgeError::Overloaded { .. } => 503,
            BridgeError::Unauthorized { .. } => 401,
        }
    }

    /// The type of the error.
    pub fn error_type(&self) -> (r: &'static str)
        ensures
            r@ == self.kind(),
    {
        match self {
            BridgeError::Upstream { .. } => "upstream_error",
            BridgeError::Stream { .. } => "stream_error",
            BridgeError::Overloaded { .. } => "overloaded_error",
            BridgeError::Unauthorized { .. } => "authentication_error",
            _ => "invalid_request_error",
        }
    }

    /// The message of the error.
    pub fn message(&self) -> (r: &str)
        ensures
            r@ == self.text(),
    {
        match self {
            BridgeError::InvalidRequest { message, .. } => message.as_str(),
            BridgeError::UnsupportedInputItem { message, .. } => message.as_str(),
            BridgeError::Upstream { message, .. } => message.as_str(),
            BridgeError::Stream { message, .. } => message.as_str(),
            BridgeError::SessionNotFound { message } => message.as_str(),
            BridgeError::RequestBodyTooLarge { message } => message.as_str(),
            BridgeError::Overloaded { message } => message.as_str(),
            BridgeError::Unauthorized { message } => message.as_str(),
        }
    }

    /// The code of the error.
    pub fn code(&self) -> (r: &'static str)
        ensures
            r@ == self.code_text(),
    {
        match self {
            BridgeError::InvalidRequest { code, .. } => *code,
            BridgeError::UnsupportedInputItem { .. } => "unsupported_input_item",
            BridgeError::Upstream { code, .. } => *code,
            BridgeError::Stream { code, .. } => *code,
            BridgeError::SessionNotFound { .. } => "previous_response_not_found",
            BridgeError::RequestBodyTooLarge { .. } => "request_too_large",
            BridgeError::Overloaded { .. } => "bridge_overloaded",
            BridgeError::Unauthorized { .. } => "invalid_api_key",
        }
    }

    /// The body of the answer.
    pub fn envelope(&self) -> (r: Json)
        ensures
            r@ == self.body(),
    {
        let mut error = Object::new().with("message", Json::text(self.message())).with(
            "type",
            Json::text(self.error_type()),
        ).with("code", Json::text(self.code()));
        match self {
            BridgeError::UnsupportedInputItem { item_type, .. } => {
                error.insert("item_type", Json::text(item_type.as_str()));
            },
            BridgeError::InvalidRequest { detail: Some(d), .. } => {
                error.insert("detail", d.clone());
            },
            BridgeError::Upstream { detail: Some(d), .. } => {
                error.insert("detail", d.clone());
            },
            _ => {},
        }
        object_of("error", Json::Object(error))
    }

    /// The body of the answer as a text.
    pub fn to_text(&self) -> (r: String)
        ensures
            r@ == crate::json::rendered(self.body()),
    {
        self.envelope().render()
    }
}

/// Every answer says its message, type and code, whatever else it says.
pub proof fn envelopes_are_complete(e: BridgeError)
    ensures
        match e.body() {
            Tree::Object(m) => match crate::json::members_in(crate::json::member(m, "error"@)) {
                Some(error) => {
                    &&& crate::json::text_at(error, "message"@) == Some(e.text())
                    &&& crate::json::text_at(error, "type"@) == Some(e.kind())
                    &&& crate::json::text_at(error, "code"@) == Some(e.code_text())
                },
                None => false,
            },
            _ => false,
        },
{
    reveal_strlit("message");
    reveal_strlit("type");
    reveal_strlit("code");
    reveal_strlit("item_type");
    reveal_strlit("detail");
    assert("message"@.len() == 7);
    assert("type"@.len() == 4);
    assert("code"@.len() == 4);
    assert("item_type"@.len() == 9);
    assert("detail"@.len() == 6);
    assert("type"@[0] != "code"@[0]);
}

/// Every answer has a status that a response can have, as long as upstream errors are
/// made from an upstream status.
pub proof fn answers_have_a_status(e: BridgeError, status: int)
    requires
        e matches BridgeError::Upstream { status: s, .. } ==> s == upstream_status(status),
    ensures
        is_status(e.status_code()),
{
}

} // verus!
