//! The tagged union over the three message kinds, and the classification
//! rule that decides which kind a decoded document represents.

use vstd::prelude::*;

use crate::error::{Error, INVALID_REQUEST};
use crate::helpers;
use crate::json::{
    bytes_to_value, field_of, int_of, lossy_text, parsed_value, str_of, string_value, value_bytes,
};
use crate::notification::{notif_shape, Notification};
use crate::request::{req_shape, Request};
use crate::response::{resp_shape, Response};

verus! {

// ---------------------------------------------------------------------------
// Message ids
// ---------------------------------------------------------------------------
/// A message id: a non-null scalar, either a number or a string.
#[derive(Debug, Clone, PartialEq)]
pub enum Id {
    /// A numeric id.
    Num(i64),
    /// A string id.
    Str(String),
}

/// The mathematical view of an [`Id`].
#[verifier::ext_equal]
pub enum IdView {
    /// A numeric id.
    Num(i64),
    /// A string id.
    Str(Seq<char>),
}

impl View for Id {
    type V = IdView;

    open spec fn view(&self) -> IdView {
        match self {
            Id::Num(i) => IdView::Num(*i),
            Id::Str(s) => IdView::Str(s@),
        }
    }
}

/// The JSON value `v` carries the id `id`: a number read by `as_i64`, or
/// else a string. A numeric reading is preferred, so a value that reads as
/// a number never stands for a string id.
pub open spec fn id_shape(v: serde_json::Value, id: IdView) -> bool {
    match id {
        IdView::Num(i) => int_of(v) == Some(i),
        IdView::Str(s) => int_of(v) is None && str_of(v) == Some(s),
    }
}

impl Id {
    /// An owned copy of the id.
    pub fn dup(&self) -> (r: Id)
        ensures
            r@ == self@,
    {
        match self {
            Id::Num(i) => Id::Num(*i),
            Id::Str(s) => Id::Str(s.clone()),
        }
    }
}

/// Decode an id value: a number that fits `i64`, or else a string.
pub(crate) fn decode_id(v: &serde_json::Value) -> (r: Option<Id>)
    ensures
        match r {
            Some(id) => id_shape(*v, id@),
            None => int_of(*v) is None && str_of(*v) is None,
        },
{
    match crate::json::value_as_i64(v) {
        Some(i) => Some(Id::Num(i)),
        None => match crate::json::value_as_string(v) {
            Some(s) => Some(Id::Str(s)),
            None => None,
        },
    }
}

// ---------------------------------------------------------------------------
// The message union
// ---------------------------------------------------------------------------
/// JSON-RPC message: exactly one kind is active, decided once at parse time.
#[derive(Debug, Clone, PartialEq)]
pub enum Message {
    /// JSON-RPC request.
    Request(Request),
    /// JSON-RPC notification.
    Notification(Notification),
    /// JSON-RPC response.
    Response(Response),
}

/// The mathematical view of a [`Message`].
#[verifier::ext_equal]
pub enum MessageView {
    /// JSON-RPC request.
    Request(crate::request::RequestView),
    /// JSON-RPC notification.
    Notification(crate::notification::NotificationView),
    /// JSON-RPC response.
    Response(crate::response::ResponseView),
}

impl View for Message {
    type V = MessageView;

    open spec fn view(&self) -> MessageView {
        match self {
            Message::Request(r) => MessageView::Request(r@),
            Message::Notification(n) => MessageView::Notification(n@),
            Message::Response(p) => MessageView::Response(p@),
        }
    }
}

impl MessageView {
    /// Well-formedness of the data model: a response carries exactly one of
    /// `result` and `error`; requests and notifications are always well
    /// formed.
    pub open spec fn wf(self) -> bool {
        match self {
            MessageView::Request(_) => true,
            MessageView::Notification(_) => true,
            MessageView::Response(p) => p.wf(),
        }
    }
}

/// The decoded document `v` carries the message `m`, classification
/// included: a request has both `method` and `id` members, a notification
/// has `method` and no `id`, and a response has no `method`.
pub open spec fn msg_shape(v: serde_json::Value, m: MessageView) -> bool {
    match m {
        MessageView::Request(r) => req_shape(v, r),
        MessageView::Notification(n) => notif_shape(v, n) && field_of(v, "id"@) is None,
        MessageView::Response(p) => resp_shape(v, p) && field_of(v, "method"@) is None,
    }
}

/// The ordered classification rule over the decoded document's top-level
/// members, and the chosen kind's schema: `method` and `id` present means a
/// request; `method` without `id` means a notification; anything else is
/// read as a response.
pub open spec fn msg_decodable(v: serde_json::Value) -> bool {
    if field_of(v, "method"@) is Some {
        if field_of(v, "id"@) is Some {
            crate::request::req_decodable(v)
        } else {
            crate::notification::notif_decodable(v)
        }
    } else {
        crate::response::resp_decodable(v)
    }
}

/// The top-level member names of the three schemas, and of the error
/// object, are pairwise distinct.
pub(crate) proof fn lemma_member_keys_distinct()
    ensures
        "jsonrpc"@ != "method"@,
        "jsonrpc"@ != "id"@,
        "jsonrpc"@ != "params"@,
        "jsonrpc"@ != "result"@,
        "jsonrpc"@ != "error"@,
        "method"@ != "id"@,
        "method"@ != "params"@,
        "method"@ != "result"@,
        "method"@ != "error"@,
        "id"@ != "params"@,
        "id"@ != "result"@,
        "id"@ != "error"@,
        "result"@ != "error"@,
        "code"@ != "message"@,
        "code"@ != "data"@,
        "message"@ != "data"@,
{
    reveal_strlit("jsonrpc");
    reveal_strlit("method");
    reveal_strlit("id");
    reveal_strlit("params");
    reveal_strlit("result");
    reveal_strlit("error");
    reveal_strlit("code");
    reveal_strlit("message");
    reveal_strlit("data");
    assert("jsonrpc"@.len() == 7);
    assert("method"@.len() == 6);
    assert("id"@.len() == 2);
    assert("params"@.len() == 6);
    assert("result"@.len() == 6);
    assert("error"@.len() == 5);
    assert("code"@.len() == 4);
    assert("message"@.len() == 7);
    assert("data"@.len() == 4);
    assert("method"@[0] == 'm' && "params"@[0] == 'p' && "result"@[0] == 'r');
    assert("jsonrpc"@[0] == 'j' && "message"@[0] == 'm');
    assert("code"@[0] == 'c' && "data"@[0] == 'd');
}

/// The message text of a failed payload decode: the payload is no JSON
/// document, or it fails the schema of the kind it classifies to.
pub open spec fn payload_err_msg(payload: Seq<u8>) -> Seq<char> {
    match parsed_value(payload) {
        None => "the provided request is not valid JSON"@,
        Some(v) => if field_of(v, "method"@) is Some {
            if field_of(v, "id"@) is Some {
                "the provided request is invalid"@
            } else {
                "the provided notification is invalid"@
            }
        } else {
            "the provided response is invalid"@
        },
    }
}

/// The narrowing error carries the re-encoded original message as
/// diagnostic data.
pub open spec fn data_reencodes(data: Option<serde_json::Value>, m: MessageView) -> bool {
    match data {
        Some(dv) => m.wf() ==> msg_shape(dv, m),
        None => false,
    }
}

pub(crate) fn wrong_variant_error(m: Message, text: &str) -> (e: Error)
    ensures
        e.code == INVALID_REQUEST,
        e.message@ == text@,
        data_reencodes(e.data, m@),
{
    let v = m.to_value();
    Error { code: INVALID_REQUEST, message: text.to_owned(), data: Some(v) }
}

impl Message {
    /// Parse a message from the provided JSON payload bytes.
    ///
    /// The payload is decoded by the external codec, classified by the rule
    /// of [`msg_decodable`], and strictly decoded against the chosen kind's
    /// schema. Fails with [`INVALID_REQUEST`] exactly when decoding fails or
    /// the schema does not fit.
    pub fn parse_json(json: &[u8]) -> (r: Result<Message, Error>)
        ensures
            match r {
                Ok(m) => (match parsed_value(json@) {
                    Some(v) => msg_shape(v, m@),
                    None => false,
                }),
                Err(e) => {
                    &&& e.code == INVALID_REQUEST
                    &&& (match parsed_value(json@) {
                        Some(v) => !msg_decodable(v),
                        None => true,
                    })
                    &&& e.message@ == payload_err_msg(json@)
                    &&& crate::json::data_echoes(e.data, json@)
                },
            },
    {
        let v = match bytes_to_value(json) {
            Some(v) => v,
            None => {
                return Err(
                    Error {
                        code: INVALID_REQUEST,
                        message: "the provided request is not valid JSON".to_owned(),
                        data: Some(string_value(lossy_text(json))),
                    },
                );
            },
        };
        let has_method = crate::json::value_field(&v, "method").is_some();
        let has_id = crate::json::value_field(&v, "id").is_some();
        if has_method && has_id {
            match Request::from_value(&v) {
                Ok(r) => Ok(Message::Request(r)),
                Err(e) => Err(attach_input(e, json)),
            }
        } else if has_method {
            match Notification::from_value(&v) {
                Ok(n) => Ok(Message::Notification(n)),
                Err(e) => Err(attach_input(e, json)),
            }
        } else {
            match Response::from_value(&v) {
                Ok(p) => Ok(Message::Response(p)),
                Err(e) => Err(attach_input(e, json)),
            }
        }
    }

    /// Parse a framed message out of a buffer, returning the message and the
    /// unconsumed remainder, so that pipelined messages can be parsed by
    /// repeated calls.
    pub fn parse<'a>(s: &'a [u8]) -> (r: Result<(Message, &'a [u8]), Error>)
        ensures
            match r {
                Ok((m, rest)) => (match helpers::spec_frame(s@) {
                    Some((payload, rem)) => rest@ == rem && (match parsed_value(payload) {
                        Some(v) => msg_shape(v, m@),
                        None => false,
                    }),
                    None => false,
                }),
                Err(e) => {
                    &&& e.code == INVALID_REQUEST
                    &&& (match helpers::spec_frame(s@) {
                        Some((payload, rem)) => {
                            &&& (match parsed_value(payload) {
                                Some(v) => !msg_decodable(v),
                                None => true,
                            })
                            &&& e.message@ == payload_err_msg(payload)
                            &&& crate::json::data_echoes(e.data, payload)
                        },
                        None => e.message@ == helpers::frame_err_msg(s@)
                            && crate::json::data_echoes(e.data, helpers::frame_err_rem(s@)),
                    })
                },
            },
    {
        let (payload, remainder) = helpers::get_content_length(s)?;
        let message = Message::parse_json(payload)?;
        Ok((message, remainder))
    }

    /// Read a framed message from a byte source.
    ///
    /// Returns the number of consumed bytes and the message.
    pub fn try_from_reader<S: crate::stream::ByteSource>(src: &mut S) -> (r: Result<
        (usize, Message),
        Error,
    >)
        requires
            old(src).remaining().len() + 2 <= usize::MAX,
        ensures
            match r {
                Ok((n, m)) => (match crate::stream::stream_frame(old(src).remaining()) {
                    Some((c, body, rest)) => n == c && final(src).remaining() == rest && (
                    match parsed_value(body) {
                        Some(v) => msg_shape(v, m@),
                        None => false,
                    }),
                    None => false,
                }),
                Err(e) => (match crate::stream::stream_frame(old(src).remaining()) {
                    Some((c, body, rest)) => if !vstd::utf8::valid_utf8(body) {
                        e.code == crate::error::PARSE_ERROR && e.message@
                            == "the provided request body is not valid UTF-8 text"@ && e.data
                            is None
                    } else {
                        &&& e.code == crate::error::INVALID_REQUEST
                        &&& (match parsed_value(body) {
                            Some(v) => !msg_decodable(v) && e.message@ == payload_err_msg(body),
                            None => e.message@ == payload_err_msg(body),
                        })
                        &&& crate::json::data_echoes(e.data, body)
                    },
                    None => e.code == crate::error::INVALID_REQUEST && e.message@ == crate::stream::stream_err_msg(
                        old(src).remaining(),
                    ) && e.data is None,
                }),
            },
    {
        let (n, contents) = crate::stream::get_content_from_reader(src)?;
        let message = Message::parse_json(contents.as_slice())?;
        Ok((n, message))
    }

    /// Encode the message to a JSON document value.
    pub fn to_value(&self) -> (v: serde_json::Value)
        ensures
            self@.wf() ==> msg_shape(v, self@),
    {
        match self {
            Message::Request(r) => r.to_value(),
            Message::Notification(n) => n.to_value(),
            Message::Response(p) => p.to_value(),
        }
    }

    /// Render the message in its wire form: a `Content-Length` header block
    /// followed by the JSON payload, whose declared length is its exact
    /// byte length.
    pub fn to_wire_bytes(&self) -> (r: Vec<u8>)
        ensures
            self@.wf() ==> exists|v: serde_json::Value|
                msg_shape(v, self@) && r@ == helpers::frame_bytes(value_bytes(v))
                    && vstd::utf8::valid_utf8(value_bytes(v)),
    {
        let v = self.to_value();
        let payload = crate::json::value_to_bytes(&v);
        helpers::frame_payload(payload)
    }

    /// Narrow the message to a request. Fails with [`INVALID_REQUEST`] on
    /// any other kind; it never fabricates a request.
    pub fn into_request(self) -> (r: Result<Request, Error>)
        ensures
            match r {
                Ok(req) => self@ == MessageView::Request(req@),
                Err(e) => !(self@ is Request) && e.code == INVALID_REQUEST && e.message@
                    == "the provided message is not a request"@ && data_reencodes(e.data, self@),
            },
    {
        match self {
            Message::Request(r) => Ok(r),
            other => Err(wrong_variant_error(other, "the provided message is not a request")),
        }
    }

    /// Narrow the message to a notification. Fails with [`INVALID_REQUEST`]
    /// on any other kind.
    pub fn into_notification(self) -> (r: Result<Notification, Error>)
        ensures
            match r {
                Ok(n) => self@ == MessageView::Notification(n@),
                Err(e) => !(self@ is Notification) && e.code == INVALID_REQUEST && e.message@
                    == "the provided message is not a notification"@ && data_reencodes(
                    e.data,
                    self@,
                ),
            },
    {
        match self {
            Message::Notification(n) => Ok(n),
            other => Err(wrong_variant_error(other, "the provided message is not a notification")),
        }
    }

    /// Narrow the message to a response. Fails with [`INVALID_REQUEST`] on
    /// any other kind.
    pub fn into_response(self) -> (r: Result<Response, Error>)
        ensures
            match r {
                Ok(p) => self@ == MessageView::Response(p@),
                Err(e) => !(self@ is Response) && e.code == INVALID_REQUEST && e.message@
                    == "the provided message is not a response"@ && data_reencodes(e.data, self@),
            },
    {
        match self {
            Message::Response(p) => Ok(p),
            other => Err(wrong_variant_error(other, "the provided message is not a response")),
        }
    }
}

/// Law: one document carries at most one message. Classification by member
/// presence and the schemas pin every field down, so decoding is
/// unambiguous.
pub proof fn lemma_msg_shape_unique(v: serde_json::Value, m1: MessageView, m2: MessageView)
    requires
        msg_shape(v, m1),
        msg_shape(v, m2),
    ensures
        m1 == m2,
{
    match (m1, m2) {
        (MessageView::Request(r1), MessageView::Request(r2)) => {
            assert(r1 =~= r2);
        },
        (MessageView::Notification(n1), MessageView::Notification(n2)) => {
            assert(n1 =~= n2);
        },
        (MessageView::Response(p1), MessageView::Response(p2)) => {
            assert(p1.error =~= p2.error);
            assert(p1 =~= p2);
        },
        _ => {},
    }
}

/// Law: a document carrying a message's shape fits that message's schema
/// and classifies to its kind, so parsing it is owed success.
pub proof fn lemma_msg_shape_decodable(v: serde_json::Value, m: MessageView)
    requires
        msg_shape(v, m),
    ensures
        msg_decodable(v),
{
}

/// Law, the round trip: the wire form of any message, followed by anything,
/// parses back to that very message and that remainder — the framing yields
/// the payload exactly, the payload re-reads to the encoded document, the
/// document fits the schema it was rendered from, and no other message fits
/// it. The one hypothesis is [`value_round_trips`]: the codec reads its own
/// rendering back, which `serde_json` does for any document within its
/// nesting limit.
pub proof fn lemma_wire_round_trip(v: serde_json::Value, m: MessageView, rest: Seq<u8>)
    requires
        msg_shape(v, m),
        crate::json::value_round_trips(v),
        value_bytes(v).len() <= usize::MAX,
    ensures
        ({
            let wire = helpers::frame_bytes(value_bytes(v)) + rest;
            &&& helpers::spec_frame(wire) == Some((value_bytes(v), rest))
            &&& crate::stream::stream_frame(wire) == Some(
                (helpers::frame_bytes(value_bytes(v)).len(), value_bytes(v), rest),
            )
            &&& parsed_value(value_bytes(v)) == Some(v)
            &&& msg_decodable(v)
            &&& forall|m2: MessageView| msg_shape(v, m2) ==> m2 == m
        }),
{
    helpers::lemma_frame_round_trip(value_bytes(v), rest);
    crate::stream::lemma_stream_frame_round_trip(value_bytes(v), rest);
    lemma_msg_shape_decodable(v, m);
    assert forall|m2: MessageView| msg_shape(v, m2) implies m2 == m by {
        lemma_msg_shape_unique(v, m, m2);
    }
}

/// Echo the offending payload into an error's diagnostic data.
pub(crate) fn attach_input(e: Error, json: &[u8]) -> (r: Error)
    ensures
        r.code == e.code,
        r.message == e.message,
        crate::json::data_echoes(r.data, json@),
{
    Error { code: e.code, message: e.message, data: Some(string_value(lossy_text(json))) }
}

} // verus!

