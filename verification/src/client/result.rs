//! The result of one action call, and the envelope that carries it.

use crate::client::TransportError;
use crate::json::{Json, JsonView};
use crate::views;
use vstd::prelude::*;

verus! {

/// An application error of an action.
#[derive(Debug, PartialEq, Eq)]
pub struct ErrorBody {
    /// Error code.
    pub code: u16,
    /// Message.
    pub message: String,
    /// Errors by field, for a failed validation.
    pub fields: Option<Json>,
}

/// What an [`ErrorBody`] stands for.
#[verifier::ext_equal]
pub struct ErrorBodyView {
    /// Error code.
    pub code: u16,
    /// Message.
    pub message: Seq<char>,
    /// Errors by field.
    pub fields: Option<JsonView>,
}

impl View for ErrorBody {
    type V = ErrorBodyView;

    open spec fn view(&self) -> ErrorBodyView {
        ErrorBodyView {
            code: self.code,
            message: self.message@,
            fields: views::optional(self.fields),
        }
    }
}

/// The error that a JSON value stands for: a code, a message, and optional
/// fields.
pub open spec fn error_body_of(value: JsonView) -> Option<ErrorBodyView> {
    match (value.unsigned_at("code"@), value.text_at("message"@)) {
        (Some(code), Some(message)) => if code <= u16::MAX {
            Some(
                ErrorBodyView {
                    code: code as u16,
                    message,
                    fields: match value.member("fields"@) {
                        Some(JsonView::Null) => None,
                        other => other,
                    },
                },
            )
        } else {
            None
        },
        _ => None,
    }
}

impl ErrorBody {
    /// Reads an error.
    pub fn from_value(value: &Json) -> (body: Option<ErrorBody>)
        ensures
            views::optional(body) == error_body_of(value@),
    {
        match (value.u64_at("code"), value.str_at("message")) {
            (Some(code), Some(message)) => if code <= 65535 {
                let fields = match value.get("fields") {
                    Some(f) => if f.is_null() {
                        None
                    } else {
                        Some(f.clone())
                    },
                    None => None,
                };
                Some(ErrorBody { code: code as u16, message: message.to_owned(), fields })
            } else {
                None
            },
            _ => None,
        }
    }

    /// Writes an error.
    pub fn to_json(&self) -> (json: Json)
        ensures
            json@ == error_body_json(self@),
    {
        let base = Json::object2(
            "code",
            Json::unsigned(self.code as u64),
            "message",
            Json::text(self.message.as_str()),
        );
        match &self.fields {
            Some(f) => base.with_member("fields", f.clone()),
            None => base,
        }
    }
}

/// An error as JSON.
pub open spec fn error_body_json(body: ErrorBodyView) -> JsonView {
    let base = JsonView::Object(
        map![
            "code"@ => JsonView::Unsigned(body.code as u64),
            "message"@ => JsonView::Text(body.message),
        ],
    );
    match body.fields {
        Some(f) => base.with_member("fields"@, f),
        None => base,
    }
}

/// A written error reads back, unless its fields are an explicit null.
pub proof fn a_written_error_reads_back(body: ErrorBodyView)
    requires
        body.fields != Some(JsonView::Null),
    ensures
        error_body_of(error_body_json(body)) == Some(body),
{
    reveal_strlit("code");
    reveal_strlit("message");
    reveal_strlit("fields");
    assert("code"@.len() == 4 && "message"@.len() == 7 && "fields"@.len() == 6);
}

/// The outcome of one action call: success with data, or an application error.
#[derive(Debug)]
pub enum ActionResult<T> {
    /// The action succeeded.
    Success(T),
    /// The action returned an application error.
    Failure(ErrorBody),
}

impl<T> ActionResult<T> {
    /// Whether the action succeeded.
    #[must_use]
    pub fn is_ok(&self) -> (ok: bool)
        ensures
            ok == (self is Success),
    {
        match self {
            ActionResult::Success(_) => true,
            ActionResult::Failure(_) => false,
        }
    }

    /// Whether the action returned an error.
    #[must_use]
    pub fn is_error(&self) -> (error: bool)
        ensures
            error == (self is Failure),
    {
        match self {
            ActionResult::Success(_) => false,
            ActionResult::Failure(_) => true,
        }
    }

    /// The success data, if any.
    #[must_use]
    pub fn data(&self) -> (data: Option<&T>)
        ensures
            match (*self, data) {
                (ActionResult::Success(expected), Some(d)) => *d == expected,
                (ActionResult::Failure(_), None) => true,
                _ => false,
            },
    {
        match self {
            ActionResult::Success(data) => Some(data),
            ActionResult::Failure(_) => None,
        }
    }

    /// The error, if any.
    #[must_use]
    pub fn error(&self) -> (error: Option<&ErrorBody>)
        ensures
            match (*self, error) {
                (ActionResult::Failure(expected), Some(e)) => *e == expected,
                (ActionResult::Success(_), None) => true,
                _ => false,
            },
    {
        match self {
            ActionResult::Failure(error) => Some(error),
            ActionResult::Success(_) => None,
        }
    }

    /// The result as a `Result`.
    pub fn into_ok(self) -> (result: Result<T, ErrorBody>)
        ensures
            result == (match self {
                ActionResult::Success(data) => Ok::<T, ErrorBody>(data),
                ActionResult::Failure(error) => Err(error),
            }),
    {
        match self {
            ActionResult::Success(data) => Ok(data),
            ActionResult::Failure(error) => Err(error),
        }
    }

    /// The success data, if any.
    #[must_use]
    pub fn ok(self) -> (data: Option<T>)
        ensures
            data == (match self {
                ActionResult::Success(data) => Some(data),
                ActionResult::Failure(_) => None,
            }),
    {
        match self {
            ActionResult::Success(data) => Some(data),
            ActionResult::Failure(_) => None,
        }
    }
}

/// What an untyped result stands for.
#[verifier::ext_equal]
pub enum ActionResultView {
    /// The action succeeded.
    Success(JsonView),
    /// The action returned an application error.
    Failure(ErrorBodyView),
}

/// What an untyped result stands for.
pub open spec fn result_view(result: ActionResult<Json>) -> ActionResultView {
    match result {
        ActionResult::Success(data) => ActionResultView::Success(data@),
        ActionResult::Failure(error) => ActionResultView::Failure(error@),
    }
}

/// What a result stands for whose data may be missing.
#[verifier::ext_equal]
pub enum CarriedView {
    /// The action succeeded, with its data where there is any.
    Success(Option<JsonView>),
    /// The action returned an application error.
    Failure(ErrorBodyView),
}

/// What a result stands for whose data may be missing.
pub open spec fn carried_view(result: ActionResult<Option<Json>>) -> CarriedView {
    match result {
        ActionResult::Success(data) => CarriedView::Success(crate::views::optional(data)),
        ActionResult::Failure(error) => CarriedView::Failure(error@),
    }
}

/// The result that an envelope carries, by its `status`. An array lists the status
/// and what goes with it, and leaves nothing out.
pub open spec fn envelope_of(value: JsonView) -> Option<CarriedView> {
    match value.text_part("status"@, 0) {
        None => None,
        Some(status) => if status == "ok"@ {
            if !value.fits(2) || (value is Array && value.part("data"@, 1) is None) {
                None
            } else {
                Some(CarriedView::Success(value.part("data"@, 1)))
            }
        } else if status == "error"@ {
            match value.part("error"@, 1) {
                Some(error) => match error_body_of(error) {
                    Some(body) => if value.fits(2) {
                        Some(CarriedView::Failure(body))
                    } else {
                        None
                    },
                    None => None,
                },
                None => None,
            }
        } else {
            None
        },
    }
}

/// What is wrong with a value that stands for no error.
pub open spec fn error_body_fault(value: JsonView) -> Seq<char> {
    if value.member("code"@) is None {
        "missing field `code`"@
    } else if value.member("message"@) is None {
        "missing field `message`"@
    } else {
        "invalid error body"@
    }
}

/// What is wrong with a value that is no envelope.
pub open spec fn envelope_fault(value: JsonView) -> Seq<char> {
    match value.text_part("status"@, 0) {
        None => "missing field `status`"@,
        Some(status) => if status == "ok"@ {
            if value.fits(2) {
                "missing field `data`"@
            } else {
                "invalid length of the envelope"@
            }
        } else if status == "error"@ {
            match value.part("error"@, 1) {
                Some(error) => if error_body_of(error) is None {
                    error_body_fault(error)
                } else {
                    "invalid length of the envelope"@
                },
                None => "missing field `error`"@,
            }
        } else {
            "unknown variant `"@ + status + "`, expected `ok` or `error`"@
        },
    }
}

/// The outcome is that of an envelope: its result, or what is wrong with it.
pub open spec fn is_envelope_read(
    value: JsonView,
    result: Result<ActionResult<Option<Json>>, TransportError>,
) -> bool {
    match (envelope_of(value), result) {
        (Some(expected), Ok(r)) => carried_view(r) == expected,
        (None, Err(TransportError::Decode(message))) => message@ == envelope_fault(value),
        _ => false,
    }
}

pub(crate) fn describe_error_fault(value: &Json) -> (message: String)
    ensures
        message@ == error_body_fault(value@),
{
    if value.get("code").is_none() {
        "missing field `code`".to_owned()
    } else if value.get("message").is_none() {
        "missing field `message`".to_owned()
    } else {
        "invalid error body".to_owned()
    }
}

/// Reads an envelope; one of another shape is a decode error. Whether success may
/// come without data is for the type that the data is read into.
pub fn decode_envelope(value: &Json) -> (result: Result<
    ActionResult<Option<Json>>,
    TransportError,
>)
    ensures
        is_envelope_read(value@, result),
{
    let status = match value.str_part("status", 0) {
        Some(status) => status,
        None => {
            return Err(TransportError::Decode("missing field `status`".to_owned()));
        },
    };
    if *status == *"ok" {
        if !value.fits(2) {
            return Err(TransportError::Decode("invalid length of the envelope".to_owned()));
        }
        match value.part("data", 1) {
            Some(data) => Ok(ActionResult::Success(Some(data.clone()))),
            None => if value.is_array() {
                Err(TransportError::Decode("missing field `data`".to_owned()))
            } else {
                Ok(ActionResult::Success(None))
            },
        }
    } else if *status == *"error" {
        match value.part("error", 1) {
            Some(error) => match ErrorBody::from_value(error) {
                Some(body) => if value.fits(2) {
                    Ok(ActionResult::Failure(body))
                } else {
                    Err(TransportError::Decode("invalid length of the envelope".to_owned()))
                },
                None => Err(TransportError::Decode(describe_error_fault(error))),
            },
            None => Err(TransportError::Decode("missing field `error`".to_owned())),
        }
    } else {
        Err(
            TransportError::Decode(
                "unknown variant `".to_owned().concat(status).concat(
                    "`, expected `ok` or `error`",
                ),
            ),
        )
    }
}

proof fn lemma_statuses_differ()
    ensures
        "ok"@ != "error"@,
{
    reveal_strlit("ok");
    reveal_strlit("error");
    assert("ok"@.len() == 2);
    assert("error"@.len() == 5);
}


/// An error is read by the names of its members: it has a code that fits and a
/// message, and the fields it names unless they are null.
pub proof fn an_error_is_read_by_name(value: JsonView, code: u64, message: Seq<char>)
    ensures
        value.unsigned_at("code"@) == Some(code) && code <= 65535 && value.text_at("message"@)
            == Some(message) ==> (error_body_of(value) matches Some(body) && body.code == code
            && body.message == message),
        value.unsigned_at("code"@) == Some(code) && code > 65535 ==> error_body_of(value) is None,
        value.unsigned_at("code"@) is None ==> error_body_of(value) is None,
        value.text_at("message"@) is None ==> error_body_of(value) is None,
        error_body_of(value) matches Some(body) ==> {
            &&& value.member("fields"@) is None ==> body.fields is None
            &&& value.member("fields"@) == Some(JsonView::Null) ==> body.fields is None
            &&& value.member("fields"@) matches Some(fields) ==> (!(fields is Null) ==> body.fields
                == Some(fields))
        },
{
}

/// An envelope carries what its status says: the data of a success, where there is
/// any, or the error of a failure. Any other status, and a failure without a good
/// error, carries nothing.
pub proof fn an_envelope_carries_what_its_status_says(value: JsonView)
    requires
        value is Object,
    ensures
        value.text_at("status"@) == Some("ok"@) ==> envelope_of(value) == Some(
            CarriedView::Success(value.member("data"@)),
        ),
        value.text_at("status"@) == Some("error"@) ==> match value.member("error"@) {
            Some(error) => match error_body_of(error) {
                Some(body) => envelope_of(value) == Some(CarriedView::Failure(body)),
                None => envelope_of(value) is None,
            },
            None => envelope_of(value) is None,
        },
        value.text_at("status"@) is None ==> envelope_of(value) is None,
        (value.text_at("status"@) matches Some(status) && status != "ok"@ && status != "error"@)
            ==> envelope_of(value) is None,
{
    lemma_statuses_differ();
}

/// An envelope that lists its parts carries the same, by position, and nothing where
/// it lists more or fewer.
pub proof fn a_listed_envelope_carries_the_same(parts: Seq<JsonView>)
    requires
        parts.len() > 0,
    ensures
        parts[0] == JsonView::Text("ok"@) && parts.len() == 2 ==> envelope_of(
            JsonView::Array(parts),
        ) == Some(CarriedView::Success(Some(parts[1]))),
        parts[0] == JsonView::Text("error"@) && parts.len() == 2 ==> match error_body_of(parts[1]) {
            Some(body) => envelope_of(JsonView::Array(parts)) == Some(CarriedView::Failure(body)),
            None => envelope_of(JsonView::Array(parts)) is None,
        },
        parts.len() != 2 ==> envelope_of(JsonView::Array(parts)) is None,
{
    lemma_statuses_differ();
}

/// What is wrong with an envelope is named: the member that is missing, or the status
/// that is unknown.
pub proof fn what_is_wrong_with_an_envelope_is_named(value: JsonView)
    requires
        value is Object,
    ensures
        value.text_at("status"@) is None ==> envelope_fault(value) == "missing field `status`"@,
        value.text_at("status"@) == Some("error"@) && value.member("error"@) is None
            ==> envelope_fault(value) == "missing field `error`"@,
        value.text_at("status"@) == Some("error"@) ==> (value.member("error"@) matches Some(error)
            ==> {
            &&& error.member("code"@) is None ==> envelope_fault(value) == "missing field `code`"@
            &&& error.member("code"@) is Some && error.member("message"@) is None
                ==> envelope_fault(value) == "missing field `message`"@
        }),
        value.text_at("status"@) matches Some(status) ==> (status != "ok"@ && status != "error"@
            ==> envelope_fault(value) == "unknown variant `"@ + status
            + "`, expected `ok` or `error`"@),
{
    lemma_statuses_differ();
}

} // verus!
