//! JSON-RPC response: the reply correlated to a prior request's id, carrying
//! exactly one of a result and an error.

use vstd::prelude::*;

use crate::error::{Error, INVALID_REQUEST, PARSE_ERROR};
use crate::helpers;
use crate::json::{
    field_of, i64_value, int_of, map_insert, map_new, object_value, parsed_value, str_of,
    string_value, value_bytes, value_clone, value_field,
};
use crate::message::{decode_id, id_shape, Id, IdView};

verus! {

/// JSON-RPC response.
#[derive(Debug, Clone, PartialEq)]
pub struct Response {
    /// Protocol header.
    pub jsonrpc: String,
    /// Result variant representing success.
    pub result: Option<serde_json::Value>,
    /// Result variant representing an error.
    pub error: Option<Error>,
    /// ID of the request that originated the response.
    pub id: Id,
}

/// The mathematical view of an [`Error`].
#[verifier::ext_equal]
pub struct ErrorView {
    /// Error code.
    pub code: i64,
    /// Human-friendly message.
    pub message: Seq<char>,
    /// Underlying data.
    pub data: Option<serde_json::Value>,
}

impl View for Error {
    type V = ErrorView;

    open spec fn view(&self) -> ErrorView {
        ErrorView { code: self.code, message: self.message@, data: self.data }
    }
}

/// The mathematical view of a [`Response`].
#[verifier::ext_equal]
pub struct ResponseView {
    /// Protocol header.
    pub jsonrpc: Seq<char>,
    /// Result variant representing success.
    pub result: Option<serde_json::Value>,
    /// Result variant representing an error.
    pub error: Option<ErrorView>,
    /// ID of the request that originated the response.
    pub id: IdView,
}

impl View for Response {
    type V = ResponseView;

    open spec fn view(&self) -> ResponseView {
        ResponseView {
            jsonrpc: self.jsonrpc@,
            result: self.result,
            error: match &self.error {
                Some(e) => Some(e@),
                None => None,
            },
            id: self.id@,
        }
    }
}

impl ResponseView {
    /// The data-model invariant: exactly one of `result` and `error` is
    /// present.
    pub open spec fn wf(self) -> bool {
        self.result is Some <==> self.error is None
    }
}

/// The decoded document `ev` carries the error object `e`: an integer
/// `code`, a string `message`, and `data` carried through exactly when
/// present.
pub open spec fn err_shape(ev: serde_json::Value, e: ErrorView) -> bool {
    &&& (match field_of(ev, "code"@) {
        Some(c) => int_of(c) == Some(e.code),
        None => false,
    })
    &&& (match field_of(ev, "message"@) {
        Some(m) => str_of(m) == Some(e.message),
        None => false,
    })
    &&& field_of(ev, "data"@) == e.data
}

/// The error object fits its schema: integer `code` and string `message`
/// present.
pub open spec fn err_decodable(ev: serde_json::Value) -> bool {
    &&& (match field_of(ev, "code"@) {
        Some(c) => int_of(c) is Some,
        None => false,
    })
    &&& (match field_of(ev, "message"@) {
        Some(m) => str_of(m) is Some,
        None => false,
    })
}

/// The decoded document `v` carries the response `r`: `jsonrpc` a string
/// member, `id` a scalar member, and exactly one of `result` and `error`
/// present — a document with both or neither fits no response.
pub open spec fn resp_shape(v: serde_json::Value, r: ResponseView) -> bool {
    &&& (match field_of(v, "jsonrpc"@) {
        Some(j) => str_of(j) == Some(r.jsonrpc),
        None => false,
    })
    &&& (match field_of(v, "id"@) {
        Some(i) => id_shape(i, r.id),
        None => false,
    })
    &&& (match field_of(v, "result"@) {
        Some(rv) => r.result == Some(rv) && r.error is None && field_of(v, "error"@) is None,
        None => r.result is None && (match field_of(v, "error"@) {
            Some(ev) => (match r.error {
                Some(e) => err_shape(ev, e),
                None => false,
            }),
            None => false,
        }),
    })
}

/// The document fits the response schema, the exactly-one-of-result-or-error
/// rule included.
pub open spec fn resp_decodable(v: serde_json::Value) -> bool {
    &&& (match field_of(v, "jsonrpc"@) {
        Some(j) => str_of(j) is Some,
        None => false,
    })
    &&& (match field_of(v, "id"@) {
        Some(i) => int_of(i) is Some || str_of(i) is Some,
        None => false,
    })
    &&& (match field_of(v, "result"@) {
        Some(_) => field_of(v, "error"@) is None,
        None => (match field_of(v, "error"@) {
            Some(ev) => err_decodable(ev),
            None => false,
        }),
    })
}

fn invalid_schema_error(text: &str) -> (e: Error)
    ensures
        e.code == INVALID_REQUEST,
        e.message@ == text@,
        e.data is None,
{
    Error { code: INVALID_REQUEST, message: text.to_owned(), data: None }
}

impl Response {
    /// Create a new response representing a success.
    pub fn ok(id: Id, value: serde_json::Value) -> (r: Response)
        ensures
            r@.jsonrpc == "2.0"@,
            r@.result == Some(value),
            r@.error is None,
            r@.id == id@,
            r@.wf(),
    {
        Response { jsonrpc: "2.0".to_owned(), result: Some(value), error: None, id }
    }

    /// Create a new response representing an error.
    pub fn err(id: Id, err: Error) -> (r: Response)
        ensures
            r@.jsonrpc == "2.0"@,
            r@.result is None,
            r@.error == Some(err@),
            r@.id == id@,
            r@.wf(),
    {
        Response { jsonrpc: "2.0".to_owned(), result: None, error: Some(err), id }
    }

    /// Read the response as a result: the carried value on success, the
    /// carried error on failure, and an [`INVALID_REQUEST`] error when the
    /// response carries neither.
    pub fn into_result(self) -> (r: Result<serde_json::Value, Error>)
        ensures
            match r {
                Ok(v) => self@.result == Some(v),
                Err(e) => self@.result is None && (match self@.error {
                    Some(ev) => e@ == ev,
                    None => e.code == INVALID_REQUEST,
                }),
            },
    {
        match (self.result, self.error) {
            (Some(v), _) => Ok(v),
            (None, Some(e)) => Err(e),
            (None, None) => Err(invalid_schema_error("the provided response is invalid")),
        }
    }

    /// Strictly decode a response out of a decoded document, validating that
    /// exactly one of `result` and `error` is present.
    pub(crate) fn from_value(v: &serde_json::Value) -> (r: Result<Response, Error>)
        ensures
            match r {
                Ok(p) => resp_decodable(*v) && resp_shape(*v, p@),
                Err(e) => !resp_decodable(*v) && e.code == INVALID_REQUEST && e.message@
                    == "the provided response is invalid"@,
            },
    {
        let jsonrpc = match value_field(v, "jsonrpc") {
            Some(j) => match crate::json::value_as_string(j) {
                Some(s) => s,
                None => {
                    return Err(invalid_schema_error("the provided response is invalid"));
                },
            },
            None => {
                return Err(invalid_schema_error("the provided response is invalid"));
            },
        };
        let id = match value_field(v, "id") {
            Some(iv) => match decode_id(iv) {
                Some(id) => id,
                None => {
                    return Err(invalid_schema_error("the provided response is invalid"));
                },
            },
            None => {
                return Err(invalid_schema_error("the provided response is invalid"));
            },
        };
        let result = match value_field(v, "result") {
            Some(rv) => Some(value_clone(rv)),
            None => None,
        };
        let error = match value_field(v, "error") {
            Some(ev) => match Response::decode_error(ev) {
                Some(e) => Some(e),
                None => {
                    return Err(invalid_schema_error("the provided response is invalid"));
                },
            },
            None => None,
        };
        match (result, error) {
            (Some(rv), None) => Ok(
                Response { jsonrpc, result: Some(rv), error: None, id },
            ),
            (None, Some(e)) => Ok(Response { jsonrpc, result: None, error: Some(e), id }),
            _ => Err(invalid_schema_error("the provided response is invalid")),
        }
    }

    /// Strictly decode the error object member.
    fn decode_error(ev: &serde_json::Value) -> (r: Option<Error>)
        ensures
            match r {
                Some(e) => err_decodable(*ev) && err_shape(*ev, e@),
                None => !err_decodable(*ev),
            },
    {
        let code = match value_field(ev, "code") {
            Some(c) => match crate::json::value_as_i64(c) {
                Some(i) => i,
                None => {
                    return None;
                },
            },
            None => {
                return None;
            },
        };
        let message = match value_field(ev, "message") {
            Some(m) => match crate::json::value_as_string(m) {
                Some(s) => s,
                None => {
                    return None;
                },
            },
            None => {
                return None;
            },
        };
        let data = match value_field(ev, "data") {
            Some(d) => Some(value_clone(d)),
            None => None,
        };
        Some(Error { code, message, data })
    }

    /// Parse a response from the provided JSON payload bytes, against the
    /// response schema alone (no kind classification).
    pub fn parse_json(json: &[u8]) -> (r: Result<Response, Error>)
        ensures
            match r {
                Ok(p) => (match parsed_value(json@) {
                    Some(v) => resp_shape(v, p@),
                    None => false,
                }),
                Err(e) => {
                    &&& e.code == INVALID_REQUEST
                    &&& (match parsed_value(json@) {
                        Some(v) => !resp_decodable(v) && e.message@ == "the provided response is invalid"@,
                        None => e.message@ == "the provided response is not valid JSON"@,
                    })
                    &&& crate::json::data_echoes(e.data, json@)
                },
            },
    {
        let v = match crate::json::bytes_to_value(json) {
            Some(v) => v,
            None => {
                return Err(
                    crate::message::attach_input(
                        invalid_schema_error("the provided response is not valid JSON"),
                        json,
                    ),
                );
            },
        };
        match Response::from_value(&v) {
            Ok(p) => Ok(p),
            Err(e) => Err(crate::message::attach_input(e, json)),
        }
    }

    /// Parse a framed response out of a buffer, returning the response and
    /// the unconsumed remainder.
    pub fn parse<'a>(s: &'a [u8]) -> (r: Result<(Response, &'a [u8]), Error>)
        ensures
            match r {
                Ok((p, rest)) => (match helpers::spec_frame(s@) {
                    Some((payload, rem)) => rest@ == rem && (match parsed_value(payload) {
                        Some(v) => resp_shape(v, p@),
                        None => false,
                    }),
                    None => false,
                }),
                Err(e) => {
                    &&& e.code == INVALID_REQUEST
                    &&& (match helpers::spec_frame(s@) {
                        Some((payload, rem)) => {
                            &&& (match parsed_value(payload) {
                                Some(v) => !resp_decodable(v) && e.message@
                                    == "the provided response is invalid"@,
                                None => e.message@ == "the provided response is not valid JSON"@,
                            })
                            &&& crate::json::data_echoes(e.data, payload)
                        },
                        None => e.message@ == helpers::frame_err_msg(s@)
                            && crate::json::data_echoes(e.data, helpers::frame_err_rem(s@)),
                    })
                },
            },
    {
        let (payload, remainder) = helpers::get_content_length(s)?;
        let response = Response::parse_json(payload)?;
        Ok((response, remainder))
    }

    /// Read a framed response from a byte source.
    ///
    /// Returns the number of consumed bytes and the response.
    pub fn try_from_reader<S: crate::stream::ByteSource>(src: &mut S) -> (r: Result<
        (usize, Response),
        Error,
    >)
        requires
            old(src).remaining().len() + 2 <= usize::MAX,
        ensures
            match r {
                Ok((n, resp)) => (match crate::stream::stream_frame(old(src).remaining()) {
                    Some((c, body, rest)) => n == c && final(src).remaining() == rest && (
                    match parsed_value(body) {
                        Some(v) => resp_shape(v, resp@),
                        None => false,
                    }),
                    None => false,
                }),
                Err(e) => (match crate::stream::stream_frame(old(src).remaining()) {
                    Some((c, body, rest)) => if !vstd::utf8::valid_utf8(body) {
                        e.code == PARSE_ERROR && e.message@
                            == "the provided request body is not valid UTF-8 text"@ && e.data
                            is None
                    } else {
                        &&& e.code == INVALID_REQUEST
                        &&& (match parsed_value(body) {
                            Some(v) => !resp_decodable(v) && e.message@ == "the provided response is invalid"@,
                            None => e.message@ == "the provided response is not valid JSON"@,
                        })
                        &&& crate::json::data_echoes(e.data, body)
                    },
                    None => e.code == INVALID_REQUEST && e.message@ == crate::stream::stream_err_msg(
                        old(src).remaining(),
                    ) && e.data is None,
                }),
            },
    {
        let (n, contents) = crate::stream::get_content_from_reader(src)?;
        let response = Response::parse_json(contents.as_slice())?;
        Ok((n, response))
    }

    /// Encode the error object to a JSON document value.
    fn error_to_value(e: &Error) -> (ev: serde_json::Value)
        ensures
            err_shape(ev, e@),
    {
        let mut m = map_new();
        map_insert(&mut m, "code".to_owned(), i64_value(e.code));
        map_insert(&mut m, "message".to_owned(), string_value(e.message.clone()));
        match &e.data {
            Some(d) => {
                map_insert(&mut m, "data".to_owned(), value_clone(d));
            },
            None => {},
        }
        let ev = object_value(m);
        proof {
            crate::message::lemma_member_keys_distinct();
        }
        ev
    }

    /// Encode the response to a JSON document value. The document has no
    /// `method` member, so it is classified as a response; when the
    /// exactly-one invariant holds, it carries the response's shape.
    pub fn to_value(&self) -> (v: serde_json::Value)
        ensures
            self@.wf() ==> resp_shape(v, self@),
            field_of(v, "method"@) is None,
    {
        let mut m = map_new();
        map_insert(&mut m, "jsonrpc".to_owned(), string_value(self.jsonrpc.clone()));
        let idv = match &self.id {
            Id::Num(i) => i64_value(*i),
            Id::Str(s) => string_value(s.clone()),
        };
        map_insert(&mut m, "id".to_owned(), idv);
        match &self.result {
            Some(rv) => {
                map_insert(&mut m, "result".to_owned(), value_clone(rv));
            },
            None => {},
        }
        match &self.error {
            Some(e) => {
                map_insert(&mut m, "error".to_owned(), Response::error_to_value(e));
            },
            None => {},
        }
        let v = object_value(m);
        proof {
            crate::message::lemma_member_keys_distinct();
        }
        v
    }

    /// Render the response in its wire form: a `Content-Length` header block
    /// followed by the JSON payload, whose declared length is its exact
    /// byte length.
    pub fn to_wire_bytes(&self) -> (r: Vec<u8>)
        ensures
            self@.wf() ==> exists|v: serde_json::Value|
                resp_shape(v, self@) && field_of(v, "method"@) is None && r@
                    == helpers::frame_bytes(value_bytes(v)),
    {
        let v = self.to_value();
        let payload = crate::json::value_to_bytes(&v);
        helpers::frame_payload(payload)
    }
}

} // verus!
