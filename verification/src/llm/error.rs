//! Structured gateway errors and captured upstream response text.
//!
//! An error carries two tiers of provider detail. `message` and `provider_code` are safe: a fixed
//! text of this library and an allowlisted token. The captured upstream text is for the view of
//! the failed turn alone: it is left out of renderings and of copies made for storage.

use vstd::prelude::*;
use vstd::string::*;
use vstd::utf8::encode_utf8;

use crate::json::{Json, JsonModel};
use crate::text::{
    blank, byte_len, chars_of, decimal, decimal_digits, ends_give_their_value, gives, is_blank,
    is_white_space, joined, longer_texts_give_the_same,
};

verus! {

/// The part of the gateway that failed.
#[derive(Clone, Copy, Debug, PartialEq, Eq, Structural)]
pub enum ErrorKind {
    Configuration,
    Transport,
    Http,
    Protocol,
    Provider,
}

/// A failure of the gateway.
///
/// `message` and `provider_code` are safe to log. The captured upstream text is not: it is kept
/// private, for the view of the failed turn alone.
#[derive(PartialEq, Eq)]
pub struct GatewayError {
    pub kind: ErrorKind,
    pub message: String,
    pub request_id: Option<String>,
    pub status: Option<u16>,
    pub provider_code: Option<String>,
    pub retryable: bool,
    pub output_started: bool,
    /// Upstream response text that explains the failure, verbatim. Never blank.
    upstream_body: Option<String>,
}

/// What a [`GatewayError`] stands for.
pub struct GatewayErrorModel {
    pub kind: ErrorKind,
    pub message: Seq<char>,
    pub request_id: Option<Seq<char>>,
    pub status: Option<u16>,
    pub provider_code: Option<Seq<char>>,
    pub retryable: bool,
    pub output_started: bool,
    pub upstream_body: Option<Seq<char>>,
}

impl DeepView for GatewayError {
    type V = GatewayErrorModel;

    closed spec fn deep_view(&self) -> GatewayErrorModel {
        GatewayErrorModel {
            kind: self.kind,
            message: self.message@,
            request_id: self.request_id.deep_view(),
            status: self.status,
            provider_code: self.provider_code.deep_view(),
            retryable: self.retryable,
            output_started: self.output_started,
            upstream_body: self.upstream_body.deep_view(),
        }
    }
}

impl Clone for GatewayError {
    fn clone(&self) -> (copy: Self)
        ensures
            copy.deep_view() == self.deep_view(),
    {
        GatewayError {
            kind: self.kind,
            message: self.message.clone(),
            request_id: self.request_id.clone(),
            status: self.status,
            provider_code: self.provider_code.clone(),
            retryable: self.retryable,
            output_started: self.output_started,
            upstream_body: self.upstream_body.clone(),
        }
    }
}

/// A failure that carries nothing but its kind and message.
pub open spec fn plain_error(kind: ErrorKind, message: Seq<char>) -> GatewayErrorModel {
    GatewayErrorModel {
        kind,
        message,
        request_id: None,
        status: None,
        provider_code: None,
        retryable: false,
        output_started: false,
        upstream_body: None,
    }
}

pub open spec fn protocol_error(message: Seq<char>) -> GatewayErrorModel {
    plain_error(ErrorKind::Protocol, message)
}

pub open spec fn configuration_error(message: Seq<char>) -> GatewayErrorModel {
    plain_error(ErrorKind::Configuration, message)
}

pub open spec fn provider_failure(
    message: Seq<char>,
    code: Option<Seq<char>>,
) -> GatewayErrorModel {
    GatewayErrorModel { provider_code: code, ..plain_error(ErrorKind::Provider, message) }
}

/// A response with an error status. Rate limiting and server errors may be tried again.
pub open spec fn http_failure(status: u16, code: Option<Seq<char>>) -> GatewayErrorModel {
    GatewayErrorModel {
        status: Some(status),
        provider_code: code,
        retryable: status == 429 || status >= 500,
        ..plain_error(
            ErrorKind::Http,
            "Provider returned HTTP "@ + decimal_digits(status as nat) + "."@,
        )
    }
}

pub open spec fn external_failure(
    kind: ErrorKind,
    message: Seq<char>,
    status: Option<u16>,
    retryable: bool,
) -> GatewayErrorModel {
    GatewayErrorModel { status, retryable, ..plain_error(kind, message) }
}

/// The error with `body` as its captured text; a blank body counts as none.
pub open spec fn with_body(error: GatewayErrorModel, body: Seq<char>) -> GatewayErrorModel {
    GatewayErrorModel {
        upstream_body: if is_blank(body) {
            None
        } else {
            Some(body)
        },
        ..error
    }
}

/// The error without its captured text.
pub open spec fn storage_safe(error: GatewayErrorModel) -> GatewayErrorModel {
    GatewayErrorModel { upstream_body: None, ..error }
}

/// The error as a part of the generation `request_id`.
pub open spec fn attributed_to(
    error: GatewayErrorModel,
    request_id: Seq<char>,
    output_started: bool,
) -> GatewayErrorModel {
    GatewayErrorModel { request_id: Some(request_id), output_started, ..error }
}

impl GatewayError {
    fn plain(kind: ErrorKind, message: &str) -> (error: Self)
        ensures
            error.deep_view() == plain_error(kind, message@),
    {
        GatewayError {
            kind,
            message: message.to_owned(),
            request_id: None,
            status: None,
            provider_code: None,
            retryable: false,
            output_started: false,
            upstream_body: None,
        }
    }

    pub fn configuration(message: &str) -> (error: Self)
        ensures
            error.deep_view() == configuration_error(message@),
    {
        GatewayError::plain(ErrorKind::Configuration, message)
    }

    pub fn protocol(message: &str) -> (error: Self)
        ensures
            error.deep_view() == protocol_error(message@),
    {
        GatewayError::plain(ErrorKind::Protocol, message)
    }

    pub fn provider(message: &str, code: Option<String>) -> (error: Self)
        ensures
            error.deep_view() == provider_failure(message@, code.deep_view()),
    {
        let mut error = GatewayError::plain(ErrorKind::Provider, message);
        error.provider_code = code;
        error
    }

    /// A response with an error status, built from safe fields alone.
    pub fn http(status: u16, provider_code: Option<String>) -> (error: Self)
        ensures
            error.deep_view() == http_failure(status, provider_code.deep_view()),
    {
        let mut message = joined("Provider returned HTTP ", decimal(status as u64).as_str());
        message.append(".");
        GatewayError {
            kind: ErrorKind::Http,
            message,
            request_id: None,
            status: Some(status),
            provider_code,
            retryable: status == 429 || status >= 500,
            output_started: false,
            upstream_body: None,
        }
    }

    /// A failure outside the provider, with no captured text.
    pub fn external(kind: ErrorKind, message: &str, status: Option<u16>, retryable: bool) -> (error:
        Self)
        ensures
            error.deep_view() == external_failure(kind, message@, status, retryable),
    {
        let mut error = GatewayError::plain(kind, message);
        error.status = status;
        error.retryable = retryable;
        error
    }

    /// Attaches captured text as it is. A blank text leaves the error without one.
    pub fn with_upstream_body(self, body: &str) -> (error: Self)
        ensures
            error.deep_view() == with_body(self.deep_view(), body@),
    {
        let mut error = self;
        error.upstream_body =
        if blank(body) {
            None
        } else {
            Some(body.to_owned())
        };
        error
    }

    /// Marks the error as a part of the generation `request_id`.
    pub fn attributed(self, request_id: &str, output_started: bool) -> (error: Self)
        ensures
            error.deep_view() == attributed_to(self.deep_view(), request_id@, output_started),
    {
        let mut error = self;
        error.request_id = Some(request_id.to_owned());
        error.output_started = output_started;
        error
    }

    pub fn safe_message(&self) -> (message: &str)
        ensures
            message@ == self.deep_view().message,
    {
        self.message.as_str()
    }

    /// The captured upstream text, if the provider sent any.
    pub fn upstream_body(&self) -> (body: Option<&str>)
        ensures
            body.deep_view() == self.deep_view().upstream_body,
    {
        match &self.upstream_body {
            Some(body) => Some(body.as_str()),
            None => None,
        }
    }

    /// The part of the gateway that failed, and the status of the response if there was one.
    pub fn kind_and_status(&self) -> (parts: (ErrorKind, Option<u16>))
        ensures
            parts == (self.deep_view().kind, self.deep_view().status),
    {
        (self.kind, self.status)
    }

    /// The code that the provider gave, and the identifier of the request, for display.
    pub fn code_and_request(&self) -> (parts: (Option<String>, Option<String>))
        ensures
            parts.0.deep_view() == self.deep_view().provider_code,
            parts.1.deep_view() == self.deep_view().request_id,
    {
        (self.provider_code.clone(), self.request_id.clone())
    }

    /// Moves the captured text out of the error.
    pub fn take_upstream_body(&mut self) -> (body: Option<String>)
        ensures
            body.deep_view() == old(self).deep_view().upstream_body,
            final(self).deep_view() == storage_safe(old(self).deep_view()),
    {
        self.upstream_body.take()
    }

    /// A copy for storage: everything but the captured text.
    pub fn storage_safe_clone(&self) -> (error: Self)
        ensures
            error.deep_view() == storage_safe(self.deep_view()),
    {
        GatewayError {
            kind: self.kind,
            message: self.message.clone(),
            request_id: self.request_id.clone(),
            status: self.status,
            provider_code: self.provider_code.clone(),
            retryable: self.retryable,
            output_started: self.output_started,
            upstream_body: None,
        }
    }

    /// The rendering for logs. Of the captured text it gives the size alone.
    pub fn debug_text(&self) -> (text: String)
        ensures
            text@ == error_text(self.deep_view()),
    {
        let mut text = joined("GatewayError { kind: ", kind_text(self.kind));
        text.append(", message: ");
        text.append(quoted(self.message.as_str()).as_str());
        text.append(", request_id: ");
        text.append(option_text(&self.request_id).as_str());
        text.append(", status: ");
        match self.status {
            Some(status) => {
                text.append("Some(");
                text.append(decimal(status as u64).as_str());
                text.append(")");
            },
            None => {
                text.append("None");
            },
        }
        text.append(", provider_code: ");
        text.append(option_text(&self.provider_code).as_str());
        text.append(", retryable: ");
        text.append(bool_text(self.retryable));
        text.append(", output_started: ");
        text.append(bool_text(self.output_started));
        text.append(", upstream_body: ");
        match &self.upstream_body {
            Some(body) => {
                text.append("\"[");
                text.append(decimal(byte_len(body.as_str()) as u64).as_str());
                text.append(" bytes redacted]\"");
            },
            None => {
                text.append("\"None\"");
            },
        }
        text.append(" }");
        text
    }
}

pub open spec fn kind_name(kind: ErrorKind) -> Seq<char> {
    match kind {
        ErrorKind::Configuration => "Configuration"@,
        ErrorKind::Transport => "Transport"@,
        ErrorKind::Http => "Http"@,
        ErrorKind::Protocol => "Protocol"@,
        ErrorKind::Provider => "Provider"@,
    }
}

fn kind_text(kind: ErrorKind) -> (text: &'static str)
    ensures
        text@ == kind_name(kind),
{
    match kind {
        ErrorKind::Configuration => "Configuration",
        ErrorKind::Transport => "Transport",
        ErrorKind::Http => "Http",
        ErrorKind::Protocol => "Protocol",
        ErrorKind::Provider => "Provider",
    }
}

pub open spec fn bool_name(value: bool) -> Seq<char> {
    if value {
        "true"@
    } else {
        "false"@
    }
}

fn bool_text(value: bool) -> (text: &'static str)
    ensures
        text@ == bool_name(value),
{
    if value {
        "true"
    } else {
        "false"
    }
}

/// What the `Debug` impl of `str` writes for a text: the text in quotes, with escapes.
pub uninterp spec fn quoted_text(text: Seq<char>) -> Seq<char>;

/// `Debug` of `str`, through `format!`. The result depends on the text alone.
#[verifier::external_body]
pub(crate) fn quoted(text: &str) -> (result: String)
    ensures
        result@ == quoted_text(text@),
{
    format!("{text:?}")
}

pub open spec fn option_name(value: Option<Seq<char>>) -> Seq<char> {
    match value {
        Some(text) => "Some("@ + quoted_text(text) + ")"@,
        None => "None"@,
    }
}

pub(crate) fn option_text(value: &Option<String>) -> (text: String)
    ensures
        text@ == option_name(value.deep_view()),
{
    match value {
        Some(value) => {
            let mut text = joined("Some(", quoted(value.as_str()).as_str());
            text.append(")");
            text
        },
        None => "None".to_owned(),
    }
}

/// The rendering of an error for logs.
pub open spec fn error_text(error: GatewayErrorModel) -> Seq<char> {
    let status = match error.status {
        Some(status) => "Some("@ + decimal_digits(status as nat) + ")"@,
        None => "None"@,
    };
    let body = match error.upstream_body {
        Some(body) => "\"["@ + decimal_digits(encode_utf8(body).len()) + " bytes redacted]\""@,
        None => "\"None\""@,
    };
    "GatewayError { kind: "@ + kind_name(error.kind) + ", message: "@ + quoted_text(error.message)
        + ", request_id: "@ + option_name(error.request_id) + ", status: "@ + status
        + ", provider_code: "@ + option_name(error.provider_code) + ", retryable: "@ + bool_name(
        error.retryable,
    ) + ", output_started: "@ + bool_name(error.output_started) + ", upstream_body: "@ + body
        + " }"@
}

/// The captured text never shows in a rendering: texts of one size give the same one.
pub proof fn rendering_hides_the_body(error: GatewayErrorModel, a: Seq<char>, b: Seq<char>)
    requires
        encode_utf8(a).len() == encode_utf8(b).len(),
    ensures
        error_text(GatewayErrorModel { upstream_body: Some(a), ..error }) == error_text(
            GatewayErrorModel { upstream_body: Some(b), ..error },
        ),
{
}

/// Storage copies of errors that differ in their captured text alone are the same.
pub proof fn storage_forgets_the_body(error: GatewayErrorModel, body: Seq<char>)
    ensures
        storage_safe(with_body(error, body)) == storage_safe(error),
{
}

/// Characters of a provider token: ASCII letters and digits, `_`, `-` and `.`.
pub open spec fn is_token_char(c: char) -> bool {
    ||| 'a' <= c <= 'z'
    ||| 'A' <= c <= 'Z'
    ||| '0' <= c <= '9'
    ||| c == '_'
    ||| c == '-'
    ||| c == '.'
}

/// Whether a provider's token may be shown: 1 to 64 harmless ASCII characters.
pub open spec fn is_provider_token(text: Seq<char>) -> bool {
    &&& 1 <= text.len() <= 64
    &&& forall|i: int| 0 <= i < text.len() ==> is_token_char(#[trigger] text[i])
}

/// A provider token that may be shown.
pub open spec fn allowed_token(text: Option<Seq<char>>) -> Option<Seq<char>> {
    match text {
        Some(token) => if is_provider_token(token) {
            Some(token)
        } else {
            None
        },
        None => None,
    }
}

pub fn allowlisted_provider_token(value: &str) -> (token: Option<String>)
    ensures
        token.deep_view() == allowed_token(Some(value@)),
{
    let chars = chars_of(value);
    if chars.len() == 0 || chars.len() > 64 {
        return None;
    }
    let mut i: usize = 0;
    while i < chars.len()
        invariant
            i <= chars.len(),
            chars@ == value@,
            1 <= chars.len() <= 64,
            forall|j: int| 0 <= j < i ==> is_token_char(#[trigger] chars@[j]),
        decreases chars.len() - i,
    {
        let c = chars[i];
        let allowed = ('a' <= c && c <= 'z') || ('A' <= c && c <= 'Z') || ('0' <= c && c <= '9')
            || c == '_' || c == '-' || c == '.';
        if !allowed {
            proof {
                assert(!is_token_char(value@[i as int]));
            }
            return None;
        }
        i += 1;
    }
    Some(value.to_owned())
}

/// The token in a provider's `code` member.
pub open spec fn allowed_code(value: Option<JsonModel>) -> Option<Seq<char>> {
    match value {
        Some(value) => allowed_token(value.as_str()),
        None => None,
    }
}

pub fn allowlisted_provider_code(value: Option<&Json>) -> (code: Option<String>)
    ensures
        code.deep_view() == allowed_code(value.deep_view()),
{
    match value {
        Some(value) => match value.as_str() {
            Some(text) => allowlisted_provider_token(text),
            None => None,
        },
        None => None,
    }
}

/// A refused request may be tried again where the provider is overloaded or broken, and not
/// otherwise; the error names the status.
pub proof fn temporary_refusals_can_be_retried(status: u16, code: Option<Seq<char>>)
    ensures
        ({
            let error = http_failure(status, code);
            &&& error.kind == ErrorKind::Http
            &&& error.status == Some(status)
            &&& error.provider_code == code
            &&& error.retryable <==> status == 429 || status >= 500
            &&& error.message == "Provider returned HTTP "@ + decimal_digits(status as nat) + "."@
            &&& error.request_id is None && !error.output_started && error.upstream_body is None
        }),
{
}

/// Only a response text with something to read is kept with an error, and it is kept as it is;
/// the rest of the error stays.
pub proof fn bodies_are_kept_as_they_are(error: GatewayErrorModel, body: Seq<char>)
    ensures
        ({
            let kept = with_body(error, body);
            &&& (exists|i: int| 0 <= i < body.len() && !is_white_space(#[trigger] body[i]))
                ==> kept.upstream_body == Some(body)
            &&& (forall|i: int| 0 <= i < body.len() ==> is_white_space(#[trigger] body[i]))
                ==> kept.upstream_body is None
            &&& kept == (GatewayErrorModel { upstream_body: kept.upstream_body, ..error })
        }),
{
}

/// The code of a provider is kept where it is a word of at most sixty-four plain characters.
pub proof fn only_plain_codes_are_kept(text: Seq<char>, i: int)
    ensures
        allowed_token(Some(text)) is Some ==> allowed_token(Some(text)) == Some(text) && 0
            < text.len() <= 64,
        allowed_token(Some(text)) is Some && 0 <= i < text.len() ==> 'a' <= text[i] <= 'z'
            || 'A' <= text[i] <= 'Z' || '0' <= text[i] <= '9' || text[i] == '_' || text[i] == '-'
            || text[i] == '.',
        allowed_token(Some(text)) is None && 0 < text.len() <= 64 ==> exists|k: int|
            0 <= k < text.len() && !('a' <= #[trigger] text[k] <= 'z' || 'A' <= text[k] <= 'Z'
                || '0' <= text[k] <= '9' || text[k] == '_' || text[k] == '-' || text[k] == '.'),
        allowed_token(None) is None,
{
}

/// The rendering of an error gives what the error says under its name, and of the captured text
/// its size alone.
pub proof fn renderings_give_the_error(error: GatewayErrorModel)
    ensures
        gives(error_text(error), ", message: "@, quoted_text(error.message)),
        gives(error_text(error), ", request_id: "@, option_name(error.request_id)),
        gives(
            error_text(error),
            ", status: "@,
            match error.status {
                Some(status) => "Some("@ + decimal_digits(status as nat) + ")"@,
                None => "None"@,
            },
        ),
        gives(error_text(error), ", provider_code: "@, option_name(error.provider_code)),
        gives(
            error_text(error),
            ", retryable: "@,
            if error.retryable {
                "true"@
            } else {
                "false"@
            },
        ),
        gives(
            error_text(error),
            ", output_started: "@,
            if error.output_started {
                "true"@
            } else {
                "false"@
            },
        ),
{
    broadcast use longer_texts_give_the_same;

    let status = match error.status {
        Some(status) => "Some("@ + decimal_digits(status as nat) + ")"@,
        None => "None"@,
    };
    let body = match error.upstream_body {
        Some(body) => "\"["@ + decimal_digits(encode_utf8(body).len()) + " bytes redacted]\""@,
        None => "\"None\""@,
    };
    let a = "GatewayError { kind: "@ + kind_name(error.kind);
    let b = a + ", message: "@ + quoted_text(error.message);
    let c = b + ", request_id: "@ + option_name(error.request_id);
    let d = c + ", status: "@ + status;
    let e = d + ", provider_code: "@ + option_name(error.provider_code);
    let f = e + ", retryable: "@ + bool_name(error.retryable);
    let g = f + ", output_started: "@ + bool_name(error.output_started);
    ends_give_their_value(a, ", message: "@, quoted_text(error.message));
    ends_give_their_value(b, ", request_id: "@, option_name(error.request_id));
    ends_give_their_value(c, ", status: "@, status);
    ends_give_their_value(d, ", provider_code: "@, option_name(error.provider_code));
    ends_give_their_value(e, ", retryable: "@, bool_name(error.retryable));
    ends_give_their_value(f, ", output_started: "@, bool_name(error.output_started));
    assert(error_text(error) == g + ", upstream_body: "@ + body + " }"@);
}

} // verus!
