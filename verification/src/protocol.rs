//! JSON-RPC messages.

use vstd::prelude::*;

use crate::digits;
use crate::digits::signed_text;
use crate::error::{StoreError, StoreErrorKind, StoreErrorView};
use crate::text::text_eq;

verus! {

/// The protocol version of every message.
pub const JSONRPC_VERSION: &'static str = "2.0";

/// A JSON value of serde_json, carried through without being read.
#[verifier::external_type_specification]
#[verifier::external_body]
pub struct ExValue(serde_json::Value);

/// A JSON-RPC identifier. Null identifiers are reserved for errors where the
/// request identifier cannot be recovered.
#[derive(Debug, PartialEq, Eq, Hash)]
pub enum RequestId {
    Number(i64),
    String(String),
    Null,
}

/// What a [`RequestId`] is.
pub enum IdView {
    Number(i64),
    Text(Seq<char>),
    Null,
}

impl View for RequestId {
    type V = IdView;

    open spec fn view(&self) -> IdView {
        match *self {
            RequestId::Number(value) => IdView::Number(value),
            RequestId::String(value) => IdView::Text(value@),
            RequestId::Null => IdView::Null,
        }
    }
}

impl Clone for RequestId {
    fn clone(&self) -> (copy: Self)
        ensures
            copy@ == self@,
    {
        match self {
            RequestId::Number(value) => RequestId::Number(*value),
            RequestId::String(value) => RequestId::String(value.clone()),
            RequestId::Null => RequestId::Null,
        }
    }
}

/// An identifier as a log shows it.
pub open spec fn id_text(id: IdView) -> Seq<char> {
    match id {
        IdView::Number(value) => "number:"@ + digits::signed_decimal(value as int),
        IdView::Text(value) => "string:"@ + value,
        IdView::Null => "null"@,
    }
}

impl RequestId {
    /// The identifier as a log shows it.
    pub fn to_text(&self) -> (text: String)
        ensures
            text@ == id_text(self@),
    {
        match self {
            RequestId::Number(value) => "number:".to_owned().concat(signed_text(*value).as_str()),
            RequestId::String(value) => "string:".to_owned().concat(value.as_str()),
            RequestId::Null => "null".to_owned(),
        }
    }

    /// Whether both identify the same request.
    pub fn is_same(&self, other: &RequestId) -> (same: bool)
        ensures
            same == (self@ == other@),
    {
        match (self, other) {
            (RequestId::Number(a), RequestId::Number(b)) => *a == *b,
            (RequestId::String(a), RequestId::String(b)) => text_eq(a.as_str(), b.as_str()),
            (RequestId::Null, RequestId::Null) => true,
            _ => false,
        }
    }
}

/// A number and a text never identify the same request, whatever the text says,
/// and a log shows them apart.
pub proof fn identifiers_keep_their_type(number: i64, value: Seq<char>)
    ensures
        IdView::Number(number) != IdView::Text(value),
        id_text(IdView::Number(number)) != id_text(IdView::Text(value)),
{
    reveal_strlit("number:");
    reveal_strlit("string:");
    let a = id_text(IdView::Number(number));
    let b = id_text(IdView::Text(value));
    assert(a[0] == 'n');
    assert(b[0] == 's');
}

/// A request or notification.
#[derive(Debug)]
pub struct Request {
    pub jsonrpc: String,
    /// Absent in a notification; an explicit null identifier is not.
    pub id: Option<RequestId>,
    pub method: String,
    pub params: serde_json::Value,
}

/// Particulars of an error.
#[derive(Debug, PartialEq)]
pub enum ErrorData {
    /// An explanation.
    Detail(String),
    /// A failed store operation.
    Store { kind: StoreErrorKind, message: String, retryable: bool },
}

/// What an [`ErrorData`] says.
pub enum DataView {
    Detail(Seq<char>),
    Store { kind: StoreErrorKind, message: Seq<char>, retryable: bool },
}

impl View for ErrorData {
    type V = DataView;

    open spec fn view(&self) -> DataView {
        match *self {
            ErrorData::Detail(detail) => DataView::Detail(detail@),
            ErrorData::Store { kind, message, retryable } => DataView::Store {
                kind,
                message: message@,
                retryable,
            },
        }
    }
}

/// Why a request failed.
#[derive(Debug, PartialEq)]
pub struct ErrorObject {
    pub code: i32,
    pub message: String,
    pub data: Option<ErrorData>,
}

/// What an [`ErrorObject`] says.
pub struct ErrorObjectView {
    pub code: i32,
    pub message: Seq<char>,
    pub data: Option<DataView>,
}

impl View for ErrorObject {
    type V = ErrorObjectView;

    open spec fn view(&self) -> ErrorObjectView {
        ErrorObjectView {
            code: self.code,
            message: self.message@,
            data: match self.data {
                Some(data) => Some(data@),
                None => None,
            },
        }
    }
}

/// An error without particulars.
pub open spec fn plain_error(code: i32, message: Seq<char>) -> ErrorObjectView {
    ErrorObjectView { code, message, data: None }
}

/// An error with an explanation.
pub open spec fn detailed_error(code: i32, message: Seq<char>, detail: Seq<char>) -> ErrorObjectView {
    ErrorObjectView { code, message, data: Some(DataView::Detail(detail)) }
}

/// The error of parameters that make no sense.
pub open spec fn params_error(detail: Seq<char>) -> ErrorObjectView {
    detailed_error(ErrorObject::INVALID_PARAMS, "Invalid params"@, detail)
}

/// The error of a cancelled request.
pub open spec fn cancelled_error() -> ErrorObjectView {
    plain_error(ErrorObject::REQUEST_CANCELLED, "Request cancelled"@)
}

/// The error of a failed store operation.
pub open spec fn store_error(error: StoreErrorView) -> ErrorObjectView {
    ErrorObjectView {
        code: ErrorObject::BACKEND_ERROR,
        message: error.message,
        data: Some(
            DataView::Store {
                kind: error.kind,
                message: error.message,
                retryable: error.retryable,
            },
        ),
    }
}

impl ErrorObject {
    pub const PARSE_ERROR: i32 = -32700;

    pub const INVALID_REQUEST: i32 = -32600;

    pub const METHOD_NOT_FOUND: i32 = -32601;

    pub const INVALID_PARAMS: i32 = -32602;

    pub const INTERNAL_ERROR: i32 = -32603;

    pub const REQUEST_CANCELLED: i32 = -32800;

    pub const SERVER_BUSY: i32 = -32000;

    pub const WATCHER_NOT_FOUND: i32 = -32001;

    pub const WATCHER_ALREADY_EXISTS: i32 = -32002;

    pub const RESOURCE_LIMIT: i32 = -32003;

    pub const BACKEND_ERROR: i32 = -32010;

    /// An error without particulars.
    pub fn new(code: i32, message: String) -> (error: Self)
        ensures
            error@ == plain_error(code, message@),
    {
        ErrorObject { code, message, data: None }
    }

    /// The same error with particulars.
    pub fn with_data(self, data: ErrorData) -> (error: Self)
        ensures
            error@ == (ErrorObjectView {
                code: self.code,
                message: self.message@,
                data: Some(data@),
            }),
    {
        ErrorObject { code: self.code, message: self.message, data: Some(data) }
    }

    /// A message that is no JSON.
    pub fn parse_error(error: &str) -> (result: Self)
        ensures
            result@ == detailed_error(ErrorObject::PARSE_ERROR, "Parse error"@, error@),
    {
        Self::new(Self::PARSE_ERROR, "Parse error".to_owned()).with_data(
            ErrorData::Detail(error.to_owned()),
        )
    }

    /// A message that is no request.
    pub fn invalid_request(message: &str) -> (result: Self)
        ensures
            result@ == plain_error(ErrorObject::INVALID_REQUEST, message@),
    {
        Self::new(Self::INVALID_REQUEST, message.to_owned())
    }

    /// A method that is not there.
    pub fn method_not_found(method: &str) -> (result: Self)
        ensures
            result@ == plain_error(
                ErrorObject::METHOD_NOT_FOUND,
                "Method not found: "@ + method@,
            ),
    {
        Self::new(Self::METHOD_NOT_FOUND, "Method not found: ".to_owned().concat(method))
    }

    /// Parameters that make no sense.
    pub fn invalid_params(error: &str) -> (result: Self)
        ensures
            result@ == params_error(error@),
    {
        Self::new(Self::INVALID_PARAMS, "Invalid params".to_owned()).with_data(
            ErrorData::Detail(error.to_owned()),
        )
    }

    /// A failure of the backend itself.
    pub fn internal(error: &str) -> (result: Self)
        ensures
            result@ == detailed_error(ErrorObject::INTERNAL_ERROR, "Internal error"@, error@),
    {
        Self::new(Self::INTERNAL_ERROR, "Internal error".to_owned()).with_data(
            ErrorData::Detail(error.to_owned()),
        )
    }

    /// A cancelled request.
    pub fn cancelled() -> (result: Self)
        ensures
            result@ == cancelled_error(),
    {
        Self::new(Self::REQUEST_CANCELLED, "Request cancelled".to_owned())
    }

    /// An operation that S3 did not carry out.
    pub fn backend(error: &str) -> (result: Self)
        ensures
            result@ == detailed_error(ErrorObject::BACKEND_ERROR, "S3 operation failed"@, error@),
    {
        Self::new(Self::BACKEND_ERROR, "S3 operation failed".to_owned()).with_data(
            ErrorData::Detail(error.to_owned()),
        )
    }

    /// A failed store operation.
    pub fn store(error: &StoreError) -> (result: Self)
        ensures
            result@ == store_error(error@),
    {
        Self::new(Self::BACKEND_ERROR, error.message.clone()).with_data(
            ErrorData::Store {
                kind: error.kind,
                message: error.message.clone(),
                retryable: error.retryable,
            },
        )
    }
}

/// The answer to a request that succeeded.
#[derive(Debug)]
pub struct SuccessResponse<'a> {
    pub jsonrpc: &'static str,
    pub id: &'a RequestId,
    pub result: serde_json::Value,
}

impl<'a> SuccessResponse<'a> {
    /// The answer to a request.
    pub fn new(id: &'a RequestId, result: serde_json::Value) -> (response: Self)
        ensures
            response.jsonrpc@ == JSONRPC_VERSION@,
            *response.id == *id,
            response.result == result,
    {
        SuccessResponse { jsonrpc: JSONRPC_VERSION, id, result }
    }
}

/// The answer to a request that failed.
#[derive(Debug)]
pub struct ErrorResponse<'a> {
    pub jsonrpc: &'static str,
    pub id: &'a RequestId,
    pub error: ErrorObject,
}

impl<'a> ErrorResponse<'a> {
    /// The answer to a request.
    pub fn new(id: &'a RequestId, error: ErrorObject) -> (response: Self)
        ensures
            response.jsonrpc@ == JSONRPC_VERSION@,
            *response.id == *id,
            response.error == error,
    {
        ErrorResponse { jsonrpc: JSONRPC_VERSION, id, error }
    }
}

/// A message that asks for no answer.
#[derive(Debug)]
pub struct Notification<'a, T> {
    pub jsonrpc: &'static str,
    pub method: &'a str,
    pub params: T,
}

impl<'a, T> Notification<'a, T> {
    /// A notification.
    pub fn new(method: &'a str, params: T) -> (notification: Self)
        ensures
            notification.jsonrpc@ == JSONRPC_VERSION@,
            notification.method@ == method@,
            notification.params == params,
    {
        Notification { jsonrpc: JSONRPC_VERSION, method, params }
    }
}

} // verus!
