//! JSON-RPC request: a method invocation that carries an id and expects a
//! reply.

use vstd::prelude::*;

use crate::error::{Error, INVALID_REQUEST};
use crate::helpers;
use crate::json::{
    field_of, i64_value, int_of, map_insert, map_new, object_value, parsed_value, str_of,
    string_value, value_bytes, value_clone, value_field,
};
use crate::message::{decode_id, id_shape, Id, IdView};

verus! {

/// JSON-RPC request.
#[derive(Debug, Clone, PartialEq)]
pub struct Request {
    /// Protocol header.
    pub jsonrpc: String,
    /// Request ID.
    pub id: Id,
    /// Method name.
    pub method: String,
    /// Optional method arguments.
    pub params: Option<serde_json::Value>,
}

/// The mathematical view of a [`Request`].
#[verifier::ext_equal]
pub struct RequestView {
    /// Protocol header.
    pub jsonrpc: Seq<char>,
    /// Request ID.
    pub id: IdView,
    /// Method name.
    pub method: Seq<char>,
    /// Optional method arguments.
    pub params: Option<serde_json::Value>,
}

impl View for Request {
    type V = RequestView;

    open spec fn view(&self) -> RequestView {
        RequestView { jsonrpc: self.jsonrpc@, id: self.id@, method: self.method@, params: self.params }
    }
}

/// The decoded document `v` carries the request `r`: `jsonrpc` and `method`
/// are string members, `id` is a scalar member, and `params` is carried
/// through exactly when present.
pub open spec fn req_shape(v: serde_json::Value, r: RequestView) -> bool {
    &&& (match field_of(v, "jsonrpc"@) {
        Some(j) => str_of(j) == Some(r.jsonrpc),
        None => false,
    })
    &&& (match field_of(v, "method"@) {
        Some(m) => str_of(m) == Some(r.method),
        None => false,
    })
    &&& (match field_of(v, "id"@) {
        Some(i) => id_shape(i, r.id),
        None => false,
    })
    &&& field_of(v, "params"@) == r.params
}

/// The document fits the request schema: `jsonrpc` and `method` present as
/// strings, `id` present as a scalar.
pub open spec fn req_decodable(v: serde_json::Value) -> bool {
    &&& (match field_of(v, "jsonrpc"@) {
        Some(j) => str_of(j) is Some,
        None => false,
    })
    &&& (match field_of(v, "method"@) {
        Some(m) => str_of(m) is Some,
        None => false,
    })
    &&& (match field_of(v, "id"@) {
        Some(i) => int_of(i) is Some || str_of(i) is Some,
        None => false,
    })
}

/// Relies on `uuid::Uuid::new_v4` and its `Display`: a freshly drawn random
/// identifier, rendered in the hyphenated form of 36 characters. Nothing
/// else is assumed of the drawn value.
#[verifier::external_body]
fn new_uuid_string() -> (r: String)
    ensures
        r@.len() == 36,
{
    uuid::Uuid::new_v4().to_string()
}

fn invalid_schema_error(text: &str) -> (e: Error)
    ensures
        e.code == INVALID_REQUEST,
        e.message@ == text@,
        e.data is None,
{
    Error { code: INVALID_REQUEST, message: text.to_owned(), data: None }
}

impl Request {
    /// Create a new request with the provided method and a randomly drawn
    /// string id.
    pub fn new(method: String) -> (r: Request)
        ensures
            r@.jsonrpc == "2.0"@,
            r@.method == method@,
            r@.params is None,
            r@.id matches IdView::Str(s) && s.len() == 36,
    {
        Request {
            jsonrpc: "2.0".to_owned(),
            id: Id::Str(new_uuid_string()),
            method,
            params: None,
        }
    }

    /// Replace the id with the provided numeric value.
    pub fn with_id(self, id: i64) -> (r: Request)
        ensures
            r@ == (RequestView { id: IdView::Num(id), ..self@ }),
    {
        Request { id: Id::Num(id), ..self }
    }

    /// Replace the id with the provided string.
    pub fn with_id_string(self, id: String) -> (r: Request)
        ensures
            r@ == (RequestView { id: IdView::Str(id@), ..self@ }),
    {
        Request { id: Id::Str(id), ..self }
    }

    /// Replace the method arguments with the provided value.
    pub fn with_params_value(self, params: serde_json::Value) -> (r: Request)
        ensures
            r@ == (RequestView { params: Some(params), ..self@ }),
    {
        Request { params: Some(params), ..self }
    }

    /// Strictly decode a request out of a decoded document.
    pub(crate) fn from_value(v: &serde_json::Value) -> (r: Result<Request, Error>)
        ensures
            match r {
                Ok(req) => req_decodable(*v) && req_shape(*v, req@),
                Err(e) => !req_decodable(*v) && e.code == INVALID_REQUEST && e.message@
                    == "the provided request is invalid"@,
            },
    {
        let jsonrpc = match value_field(v, "jsonrpc") {
            Some(j) => match crate::json::value_as_string(j) {
                Some(s) => s,
                None => {
                    return Err(invalid_schema_error("the provided request is invalid"));
                },
            },
            None => {
                return Err(invalid_schema_error("the provided request is invalid"));
            },
        };
        let method = match value_field(v, "method") {
            Some(m) => match crate::json::value_as_string(m) {
                Some(s) => s,
                None => {
                    return Err(invalid_schema_error("the provided request is invalid"));
                },
            },
            None => {
                return Err(invalid_schema_error("the provided request is invalid"));
            },
        };
        let id = match value_field(v, "id") {
            Some(iv) => match decode_id(iv) {
                Some(id) => id,
                None => {
                    return Err(invalid_schema_error("the provided request is invalid"));
                },
            },
            None => {
                return Err(invalid_schema_error("the provided request is invalid"));
            },
        };
        let params = match value_field(v, "params") {
            Some(p) => Some(value_clone(p)),
            None => None,
        };
        Ok(Request { jsonrpc, id, method, params })
    }

    /// Parse a request from the provided JSON payload bytes, against the
    /// request schema alone (no kind classification).
    pub fn parse_json(json: &[u8]) -> (r: Result<Request, Error>)
        ensures
            match r {
                Ok(req) => (match parsed_value(json@) {
                    Some(v) => req_shape(v, req@),
                    None => false,
                }),
                Err(e) => {
                    &&& e.code == INVALID_REQUEST
                    &&& (match parsed_value(json@) {
                        Some(v) => !req_decodable(v) && e.message@ == "the provided request is invalid"@,
                        None => e.message@ == "the provided request is not valid JSON"@,
                    })
                    &&& crate::json::data_echoes(e.data, json@)
                },
            },
    {
        let v = match crate::json::bytes_to_value(json) {
            Some(v) => v,
            None => {
                return Err(
                    crate::message::attach_input(
                        invalid_schema_error("the provided request is not valid JSON"),
                        json,
                    ),
                );
            },
        };
        match Request::from_value(&v) {
            Ok(r) => Ok(r),
            Err(e) => Err(crate::message::attach_input(e, json)),
        }
    }

    /// Parse a framed request out of a buffer, returning the request and the
    /// unconsumed remainder.
    pub fn parse<'a>(s: &'a [u8]) -> (r: Result<(Request, &'a [u8]), Error>)
        ensures
            match r {
                Ok((req, rest)) => (match helpers::spec_frame(s@) {
                    Some((payload, rem)) => rest@ == rem && (match parsed_value(payload) {
                        Some(v) => req_shape(v, req@),
                        None => false,
                    }),
                    None => false,
                }),
                Err(e) => {
                    &&& e.code == INVALID_REQUEST
                    &&& (match helpers::spec_frame(s@) {
                        Some((payload, rem)) => {
                            &&& (match parsed_value(payload) {
                                Some(v) => !req_decodable(v) && e.message@
                                    == "the provided request is invalid"@,
                                None => e.message@ == "the provided request is not valid JSON"@,
                            })
                            &&& crate::json::data_echoes(e.data, payload)
                        },
                        None => e.message@ == helpers::frame_err_msg(s@)
                            && crate::json::data_echoes(e.data, helpers::frame_err_rem(s@)),
                    })
                },
            },
    {
        let (payload, remainder) = helpers::get_content_length(s)?;
        let request = Request::parse_json(payload)?;
        Ok((request, remainder))
    }

    /// Read a framed request from a byte source.
    ///
    /// Returns the number of consumed bytes and the request.
    pub fn try_from_reader<S: crate::stream::ByteSource>(src: &mut S) -> (r: Result<
        (usize, Request),
        Error,
    >)
        requires
            old(src).remaining().len() + 2 <= usize::MAX,
        ensures
            match r {
                Ok((n, req)) => (match crate::stream::stream_frame(old(src).remaining()) {
                    Some((c, body, rest)) => n == c && final(src).remaining() == rest && (
                    match parsed_value(body) {
                        Some(v) => req_shape(v, req@),
                        None => false,
                    }),
                    None => false,
                }),
                Err(e) => (match crate::stream::stream_frame(old(src).remaining()) {
                    Some((c, body, rest)) => if !vstd::utf8::valid_utf8(body) {
                        e.code == crate::error::PARSE_ERROR && e.message@
                            == "the provided request body is not valid UTF-8 text"@ && e.data
                            is None
                    } else {
                        &&& e.code == INVALID_REQUEST
                        &&& (match parsed_value(body) {
                            Some(v) => !req_decodable(v) && e.message@ == "the provided request is invalid"@,
                            None => e.message@ == "the provided request is not valid JSON"@,
                        })
                        &&& crate::json::data_echoes(e.data, body)
                    },
                    None => e.code == INVALID_REQUEST && e.message@ == crate::stream::stream_err_msg(
                        old(src).remaining(),
                    ) && e.data is None,
                }),
            },
    {
        let (n, contents) = crate::stream::get_content_from_reader(src)?;
        let request = Request::parse_json(contents.as_slice())?;
        Ok((n, request))
    }

    /// Encode the request to a JSON document value.
    pub fn to_value(&self) -> (v: serde_json::Value)
        ensures
            req_shape(v, self@),
    {
        let mut m = map_new();
        map_insert(&mut m, "jsonrpc".to_owned(), string_value(self.jsonrpc.clone()));
        map_insert(&mut m, "method".to_owned(), string_value(self.method.clone()));
        let idv = match &self.id {
            Id::Num(i) => i64_value(*i),
            Id::Str(s) => string_value(s.clone()),
        };
        map_insert(&mut m, "id".to_owned(), idv);
        match &self.params {
            Some(p) => {
                map_insert(&mut m, "params".to_owned(), value_clone(p));
            },
            None => {},
        }
        let v = object_value(m);
        proof {
            crate::message::lemma_member_keys_distinct();
        }
        v
    }

    /// Render the request in its wire form: a `Content-Length` header block
    /// followed by the JSON payload, whose declared length is its exact
    /// byte length.
    pub fn to_wire_bytes(&self) -> (r: Vec<u8>)
        ensures
            exists|v: serde_json::Value| req_shape(v, self@) && r@ == helpers::frame_bytes(
                value_bytes(v),
            ),
    {
        let v = self.to_value();
        let payload = crate::json::value_to_bytes(&v);
        helpers::frame_payload(payload)
    }

    /// Split the request into its id and its wire form.
    pub fn prepare(&self) -> (r: (Id, Vec<u8>))
        ensures
            r.0@ == self@.id,
            exists|v: serde_json::Value| req_shape(v, self@) && r.1@ == helpers::frame_bytes(
                value_bytes(v),
            ),
    {
        let id = self.id.dup();
        let message = self.to_wire_bytes();
        (id, message)
    }
}

} // verus!
