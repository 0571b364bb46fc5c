//! JSON-RPC notification: a method invocation without an id, expecting no
//! reply.

use vstd::prelude::*;

use crate::error::{Error, INVALID_REQUEST};
use crate::helpers;
use crate::json::{
    field_of, map_insert, map_new, object_value, parsed_value, str_of, string_value, value_bytes,
    value_clone, value_field,
};

verus! {

/// JSON-RPC notification.
#[derive(Debug, Clone, PartialEq)]
pub struct Notification {
    /// Protocol header.
    pub jsonrpc: String,
    /// Method name.
    pub method: String,
    /// Optional method arguments.
    pub params: Option<serde_json::Value>,
}

/// The mathematical view of a [`Notification`].
#[verifier::ext_equal]
pub struct NotificationView {
    /// Protocol header.
    pub jsonrpc: Seq<char>,
    /// Method name.
    pub method: Seq<char>,
    /// Optional method arguments.
    pub params: Option<serde_json::Value>,
}

impl View for Notification {
    type V = NotificationView;

    open spec fn view(&self) -> NotificationView {
        NotificationView { jsonrpc: self.jsonrpc@, method: self.method@, params: self.params }
    }
}

/// The decoded document `v` carries the notification `n`: `jsonrpc` and
/// `method` are string members, and `params` is carried through exactly when
/// present. Whether an `id` member is absent is the classifier's concern,
/// not the schema's.
pub open spec fn notif_shape(v: serde_json::Value, n: NotificationView) -> bool {
    &&& (match field_of(v, "jsonrpc"@) {
        Some(j) => str_of(j) == Some(n.jsonrpc),
        None => false,
    })
    &&& (match field_of(v, "method"@) {
        Some(m) => str_of(m) == Some(n.method),
        None => false,
    })
    &&& field_of(v, "params"@) == n.params
}

/// The document fits the notification schema: `jsonrpc` and `method`
/// present as strings.
pub open spec fn notif_decodable(v: serde_json::Value) -> bool {
    &&& (match field_of(v, "jsonrpc"@) {
        Some(j) => str_of(j) is Some,
        None => false,
    })
    &&& (match field_of(v, "method"@) {
        Some(m) => str_of(m) is Some,
        None => false,
    })
}

fn invalid_schema_error(text: &str) -> (e: Error)
    ensures
        e.code == INVALID_REQUEST,
        e.message@ == text@,
        e.data is None,
{
    Error { code: INVALID_REQUEST, message: text.to_owned(), data: None }
}

impl Notification {
    /// Create a new notification with the provided method.
    pub fn new(method: String) -> (r: Notification)
        ensures
            r@.jsonrpc == "2.0"@,
            r@.method == method@,
            r@.params is None,
    {
        Notification { jsonrpc: "2.0".to_owned(), method, params: None }
    }

    /// Replace the method arguments with the provided value.
    pub fn with_params_value(self, params: serde_json::Value) -> (r: Notification)
        ensures
            r@ == (NotificationView { params: Some(params), ..self@ }),
    {
        Notification { params: Some(params), ..self }
    }

    /// Strictly decode a notification out of a decoded document.
    pub(crate) fn from_value(v: &serde_json::Value) -> (r: Result<Notification, Error>)
        ensures
            match r {
                Ok(n) => notif_decodable(*v) && notif_shape(*v, n@),
                Err(e) => !notif_decodable(*v) && e.code == INVALID_REQUEST && e.message@
                    == "the provided notification is invalid"@,
            },
    {
        let jsonrpc = match value_field(v, "jsonrpc") {
            Some(j) => match crate::json::value_as_string(j) {
                Some(s) => s,
                None => {
                    return Err(invalid_schema_error("the provided notification is invalid"));
                },
            },
            None => {
                return Err(invalid_schema_error("the provided notification is invalid"));
            },
        };
        let method = match value_field(v, "method") {
            Some(m) => match crate::json::value_as_string(m) {
                Some(s) => s,
                None => {
                    return Err(invalid_schema_error("the provided notification is invalid"));
                },
            },
            None => {
                return Err(invalid_schema_error("the provided notification is invalid"));
            },
        };
        let params = match value_field(v, "params") {
            Some(p) => Some(value_clone(p)),
            None => None,
        };
        Ok(Notification { jsonrpc, method, params })
    }

    /// Parse a notification from the provided JSON payload bytes, against
    /// the notification schema alone (no kind classification).
    pub fn parse_json(json: &[u8]) -> (r: Result<Notification, Error>)
        ensures
            match r {
                Ok(n) => (match parsed_value(json@) {
                    Some(v) => notif_shape(v, n@),
                    None => false,
                }),
                Err(e) => {
                    &&& e.code == INVALID_REQUEST
                    &&& (match parsed_value(json@) {
                        Some(v) => !notif_decodable(v) && e.message@ == "the provided notification is invalid"@,
                        None => e.message@ == "the provided notification is not valid JSON"@,
                    })
                    &&& crate::json::data_echoes(e.data, json@)
                },
            },
    {
        let v = match crate::json::bytes_to_value(json) {
            Some(v) => v,
            None => {
                return Err(
                    crate::message::attach_input(
                        invalid_schema_error("the provided notification is not valid JSON"),
                        json,
                    ),
                );
            },
        };
        match Notification::from_value(&v) {
            Ok(n) => Ok(n),
            Err(e) => Err(crate::message::attach_input(e, json)),
        }
    }

    /// Parse a framed notification out of a buffer, returning the
    /// notification and the unconsumed remainder.
    pub fn parse<'a>(s: &'a [u8]) -> (r: Result<(Notification, &'a [u8]), Error>)
        ensures
            match r {
                Ok((n, rest)) => (match helpers::spec_frame(s@) {
                    Some((payload, rem)) => rest@ == rem && (match parsed_value(payload) {
                        Some(v) => notif_shape(v, n@),
                        None => false,
                    }),
                    None => false,
                }),
                Err(e) => {
                    &&& e.code == INVALID_REQUEST
                    &&& (match helpers::spec_frame(s@) {
                        Some((payload, rem)) => {
                            &&& (match parsed_value(payload) {
                                Some(v) => !notif_decodable(v) && e.message@
                                    == "the provided notification is invalid"@,
                                None => e.message@ == "the provided notification is not valid JSON"@,
                            })
                            &&& crate::json::data_echoes(e.data, payload)
                        },
                        None => e.message@ == helpers::frame_err_msg(s@)
                            && crate::json::data_echoes(e.data, helpers::frame_err_rem(s@)),
                    })
                },
            },
    {
        let (payload, remainder) = helpers::get_content_length(s)?;
        let notification = Notification::parse_json(payload)?;
        Ok((notification, remainder))
    }

    /// Read a framed notification from a byte source.
    ///
    /// Returns the number of consumed bytes and the notification.
    pub fn try_from_reader<S: crate::stream::ByteSource>(src: &mut S) -> (r: Result<
        (usize, Notification),
        Error,
    >)
        requires
            old(src).remaining().len() + 2 <= usize::MAX,
        ensures
            match r {
                Ok((n, notif)) => (match crate::stream::stream_frame(old(src).remaining()) {
                    Some((c, body, rest)) => n == c && final(src).remaining() == rest && (
                    match parsed_value(body) {
                        Some(v) => notif_shape(v, notif@),
                        None => false,
                    }),
                    None => false,
                }),
                Err(e) => (match crate::stream::stream_frame(old(src).remaining()) {
                    Some((c, body, rest)) => if !vstd::utf8::valid_utf8(body) {
                        e.code == crate::error::PARSE_ERROR && e.message@
                            == "the provided request body is not valid UTF-8 text"@ && e.data
                            is None
                    } else {
                        &&& e.code == INVALID_REQUEST
                        &&& (match parsed_value(body) {
                            Some(v) => !notif_decodable(v) && e.message@ == "the provided notification is invalid"@,
                            None => e.message@ == "the provided notification is not valid JSON"@,
                        })
                        &&& crate::json::data_echoes(e.data, body)
                    },
                    None => e.code == INVALID_REQUEST && e.message@ == crate::stream::stream_err_msg(
                        old(src).remaining(),
                    ) && e.data is None,
                }),
            },
    {
        let (n, contents) = crate::stream::get_content_from_reader(src)?;
        let notification = Notification::parse_json(contents.as_slice())?;
        Ok((n, notification))
    }

    /// Encode the notification to a JSON document value. The document has no
    /// `id` member: its presence, even null, would reclassify the message.
    pub fn to_value(&self) -> (v: serde_json::Value)
        ensures
            notif_shape(v, self@),
            field_of(v, "id"@) is None,
    {
        let mut m = map_new();
        map_insert(&mut m, "jsonrpc".to_owned(), string_value(self.jsonrpc.clone()));
        map_insert(&mut m, "method".to_owned(), string_value(self.method.clone()));
        match &self.params {
            Some(p) => {
                map_insert(&mut m, "params".to_owned(), value_clone(p));
            },
            None => {},
        }
        let v = object_value(m);
        proof {
            crate::message::lemma_member_keys_distinct();
        }
        v
    }

    /// Render the notification in its wire form: a `Content-Length` header
    /// block followed by the JSON payload, whose declared length is its
    /// exact byte length.
    pub fn to_wire_bytes(&self) -> (r: Vec<u8>)
        ensures
            exists|v: serde_json::Value|
                notif_shape(v, self@) && field_of(v, "id"@) is None && r@ == helpers::frame_bytes(
                    value_bytes(v),
                ),
    {
        let v = self.to_value();
        let payload = crate::json::value_to_bytes(&v);
        helpers::frame_payload(payload)
    }
}

} // verus!
