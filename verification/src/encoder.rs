//! Mapping the value a handler returns onto a wire response: status,
//! headers and body. Every response carries the fixed server
//! identification header.

use vstd::prelude::*;
use crate::render::json_escape;
use crate::render::json_of;
use crate::render::plain_of;
use crate::render::render_json;
use crate::render::render_plain;
use crate::text::ascii_eq_fold;
use crate::text::eq_ignore_case;
use crate::text::str_eq;
use crate::value::Value;
use crate::value::record_lookup;
use vstd::string::StringExecFns;

verus! {

/// A wire response: what the host writes back on the connection.
#[derive(Debug, Clone, PartialEq)]
pub struct WireResponse {
    pub status: u16,
    pub headers: Vec<(String, String)>,
    pub body: String,
}

/// The mathematical shape of a [`WireResponse`].
pub struct WireView {
    pub status: int,
    pub headers: Seq<(Seq<char>, Seq<char>)>,
    pub body: Seq<char>,
}

impl View for WireResponse {
    type V = WireView;

    open spec fn view(&self) -> WireView {
        WireView {
            status: self.status as int,
            headers: self.headers@.map_values(|h: (String, String)| (h.0@, h.1@)),
            body: self.body@,
        }
    }
}

/// Why encoding a handler's return failed.
#[derive(Clone, Copy, PartialEq, Eq, Structural, Debug)]
pub enum EncodeError {
    /// The returned record has no `status` field.
    MissingStatus,
    /// The returned record has no `body` field.
    MissingBody,
    /// The negotiated content type is JSON but the body has no JSON
    /// form.
    NoJsonForm,
}

impl EncodeError {
    /// A descriptive message for the failure.
    pub fn message(&self) -> String {
        match self {
            EncodeError::MissingStatus => "missing status in response (e.g 200)".to_owned(),
            EncodeError::MissingBody => "missing body in response".to_owned(),
            EncodeError::NoJsonForm => "response body cannot be rendered as json".to_owned(),
        }
    }
}

/// The fixed server identification header on every response.
pub open spec fn server_header_view() -> (Seq<char>, Seq<char>) {
    ("Server"@, "Adana"@)
}

/// The JSON content type header.
pub open spec fn json_header_view() -> (Seq<char>, Seq<char>) {
    ("Content-Type"@, "application/json"@)
}

/// True when the request asked for JSON: its Accept or Content-Type
/// header is exactly `application/json`.
pub open spec fn negotiates_json(accept: Option<Seq<char>>, ct: Option<Seq<char>>) -> bool {
    accept == Some("application/json"@) || ct == Some("application/json"@)
}

/// The JSON object carrying an error message.
pub open spec fn error_json_body(msg: Seq<char>) -> Seq<char> {
    "{\"error\":\""@ + json_escape(msg) + "\"}"@
}

/// The response to a value the encoder refuses: a diagnostic body
/// describing the invalid return.
pub open spec fn bad_return_view(v: Value) -> WireView {
    WireView {
        status: 500,
        headers: seq![server_header_view()],
        body: "SERVER ERROR: BAD RETURN "@ + plain_of(v),
    }
}

/// The status a record's `status` field resolves to: its value when it
/// is an integer a status line can carry, 200 otherwise.
pub open spec fn status_of(sv: Option<Value>) -> int {
    match sv {
        Some(Value::Int(n)) => if 0 <= n < 65536 {
            n as int
        } else {
            200
        },
        _ => 200,
    }
}

/// The value of the first entry whose key is `Content-Type` up to ASCII
/// case.
pub open spec fn first_ct_header(entries: Seq<(String, Value)>) -> Option<Value>
    decreases entries.len(),
{
    if entries.len() == 0 {
        None
    } else if ascii_eq_fold(entries[0].0@, "Content-Type"@) {
        Some(entries[0].1)
    } else {
        first_ct_header(entries.drop_first())
    }
}

/// The headers a record response carries, rendered as text, behind the
/// server identification header.
pub open spec fn header_views(entries: Seq<(String, Value)>) -> Seq<(Seq<char>, Seq<char>)> {
    entries.map_values(|e: (String, Value)| (e.0@, plain_of(e.1)))
}

/// The content type a record response's body is encoded under: an
/// explicit `Content-Type` among its own headers, else the request's
/// Content-Type, else its Accept, else `text/html`.
pub open spec fn resolved_ct(
    hdrs: Seq<(String, Value)>,
    req_ct: Option<Seq<char>>,
    accept: Option<Seq<char>>,
) -> Seq<char> {
    match first_ct_header(hdrs) {
        Some(v) => plain_of(v),
        None => match req_ct {
            Some(c) => c,
            None => match accept {
                Some(a) => a,
                None => "text/html"@,
            },
        },
    }
}

/// What a `{status, body, headers}` record encodes to. The record must
/// carry `status` and `body` — nothing is guessed for a missing field —
/// and its `headers` sub-record, when present, both supplies the
/// response headers and may fix the content type.
pub open spec fn encode_record_spec(
    accept: Option<Seq<char>>,
    req_ct: Option<Seq<char>>,
    entries: Seq<(String, Value)>,
) -> Result<WireView, EncodeError> {
    if record_lookup(entries, "status"@) is None {
        Err(EncodeError::MissingStatus)
    } else if record_lookup(entries, "body"@) is None {
        Err(EncodeError::MissingBody)
    } else {
        let hdrs = match record_lookup(entries, "headers"@) {
            Some(Value::Record(h)) => h@,
            _ => Seq::empty(),
        };
        let ct = resolved_ct(hdrs, req_ct, accept);
        let body_v = record_lookup(entries, "body"@)->0;
        let body_text = if ct == "application/json"@ {
            json_of(body_v)
        } else {
            Some(plain_of(body_v))
        };
        match body_text {
            None => Err(EncodeError::NoJsonForm),
            Some(b) => Ok(
                WireView {
                    status: status_of(record_lookup(entries, "status"@)),
                    headers: seq![server_header_view()] + header_views(hdrs),
                    body: b,
                },
            ),
        }
    }
}

/// What a handler's return encodes to, by the value's shape, in
/// priority order: early returns are unwrapped; an error value answers
/// 400, as JSON when the request asked for JSON; a string answers 200
/// and echoes the Accept header as content type; an array answers as
/// JSON when the request asked for JSON; unit answers an empty 200; a
/// record answers by [`encode_record_spec`]; every other shape is a bad
/// return answered with 500.
pub open spec fn encode_spec(
    accept: Option<Seq<char>>,
    req_ct: Option<Seq<char>>,
    v: Value,
) -> Result<WireView, EncodeError>
    decreases v,
{
    match v {
        Value::EarlyReturn(b) => encode_spec(accept, req_ct, *b),
        Value::Error(msg) => Ok(
            if negotiates_json(accept, req_ct) {
                WireView {
                    status: 400,
                    headers: seq![server_header_view(), json_header_view()],
                    body: error_json_body(msg@),
                }
            } else {
                WireView {
                    status: 400,
                    headers: seq![server_header_view()],
                    body: "Error: "@ + msg@,
                }
            },
        ),
        Value::Str(s) => Ok(
            WireView {
                status: 200,
                headers: match accept {
                    Some(a) => seq![server_header_view(), ("Content-Type"@, a)],
                    None => seq![server_header_view()],
                },
                body: s@,
            },
        ),
        Value::Array(_) => if negotiates_json(accept, req_ct) {
            match json_of(v) {
                Some(t) => Ok(
                    WireView {
                        status: 200,
                        headers: seq![server_header_view(), json_header_view()],
                        body: t,
                    },
                ),
                None => Err(EncodeError::NoJsonForm),
            }
        } else {
            Ok(bad_return_view(v))
        },
        Value::Unit => Ok(
            WireView { status: 200, headers: seq![server_header_view()], body: Seq::empty() },
        ),
        Value::Record(entries) => encode_record_spec(accept, req_ct, entries@),
        _ => Ok(bad_return_view(v)),
    }
}

/// The view of an optional header value.
pub open spec fn opt_view(o: Option<String>) -> Option<Seq<char>> {
    match o {
        Some(s) => Some(s@),
        None => None,
    }
}

fn server_header_pair() -> (r: (String, String))
    ensures
        (r.0@, r.1@) == server_header_view(),
{
    ("Server".to_owned(), "Adana".to_owned())
}

fn opt_is_json(o: &Option<String>) -> (r: bool)
    ensures
        r == (opt_view(*o) == Some("application/json"@)),
{
    match o {
        Some(s) => str_eq(s.as_str(), "application/json"),
        None => false,
    }
}

/// Finds the explicit `Content-Type` among a record's headers.
fn find_ct_header<'a>(entries: &'a Vec<(String, Value)>) -> (r: Option<&'a Value>)
    ensures
        match r {
            Some(v) => first_ct_header(entries@) == Some(*v),
            None => first_ct_header(entries@) is None,
        },
{
    let n = entries.len();
    proof {
        assert(entries@.skip(0) =~= entries@);
    }
    for i in 0..n
        invariant
            n == entries@.len(),
            first_ct_header(entries@) == first_ct_header(entries@.skip(i as int)),
            forall|j: int| 0 <= j < i ==> !ascii_eq_fold(entries@[j].0@, "Content-Type"@),
    {
        proof {
            assert(entries@.skip(i as int)[0] == entries@[i as int]);
        }
        if eq_ignore_case(entries[i].0.as_str(), "Content-Type") {
            return Some(&entries[i].1);
        }
        proof {
            assert(entries@.skip(i as int).drop_first() =~= entries@.skip(i + 1));
        }
    }
    proof {
        assert(entries@.skip(n as int) =~= Seq::<(String, Value)>::empty());
    }
    None
}

/// Encodes a handler's return as a wire response, given the request's
/// Accept and Content-Type headers.
pub fn encode_response(
    accept: &Option<String>,
    req_ct: &Option<String>,
    v: &Value,
) -> (r: Result<WireResponse, EncodeError>)
    ensures
        match r {
            Ok(w) => encode_spec(opt_view(*accept), opt_view(*req_ct), *v) == Ok::<
                WireView,
                EncodeError,
            >(w@),
            Err(e) => encode_spec(opt_view(*accept), opt_view(*req_ct), *v) == Err::<
                WireView,
                EncodeError,
            >(e),
        },
    decreases *v,
{
    match v {
        Value::EarlyReturn(b) => {
            proof {
                assert(decreases_to!(*v => (*v)->EarlyReturn_0));
            }
            encode_response(accept, req_ct, b)
        },
        Value::Error(msg) => {
            let mut headers: Vec<(String, String)> = Vec::new();
            headers.push(server_header_pair());
            if opt_is_json(accept) || opt_is_json(req_ct) {
                headers.push(("Content-Type".to_owned(), "application/json".to_owned()));
                let mut body = String::new();
                body.append("{\"error\":\"");
                crate::render::append_json_escaped(&mut body, msg.as_str());
                body.append("\"}");
                let w = WireResponse { status: 400, headers, body };
                proof {
                    assert(w@.headers =~= seq![server_header_view(), json_header_view()]);
                    assert(w@.body =~= error_json_body(msg@));
                }
                Ok(w)
            } else {
                let mut body = String::new();
                body.append("Error: ");
                body.append(msg.as_str());
                let w = WireResponse { status: 400, headers, body };
                proof {
                    assert(w@.headers =~= seq![server_header_view()]);
                    assert(w@.body =~= "Error: "@ + msg@);
                }
                Ok(w)
            }
        },
        Value::Str(s) => {
            let mut headers: Vec<(String, String)> = Vec::new();
            headers.push(server_header_pair());
            match accept {
                Some(a) => {
                    headers.push(("Content-Type".to_owned(), a.clone()));
                },
                None => {},
            }
            let w = WireResponse { status: 200, headers, body: s.clone() };
            proof {
                match accept {
                    Some(a) => {
                        assert(w@.headers =~= seq![
                            server_header_view(),
                            ("Content-Type"@, a@),
                        ]);
                    },
                    None => {
                        assert(w@.headers =~= seq![server_header_view()]);
                    },
                }
            }
            Ok(w)
        },
        Value::Array(_) => {
            if opt_is_json(accept) || opt_is_json(req_ct) {
                match render_json(v) {
                    Some(t) => {
                        let mut headers: Vec<(String, String)> = Vec::new();
                        headers.push(server_header_pair());
                        headers.push(("Content-Type".to_owned(), "application/json".to_owned()));
                        let w = WireResponse { status: 200, headers, body: t };
                        proof {
                            assert(w@.headers =~= seq![server_header_view(), json_header_view()]);
                        }
                        Ok(w)
                    },
                    None => Err(EncodeError::NoJsonForm),
                }
            } else {
                Ok(bad_return_response(v))
            }
        },
        Value::Unit => {
            let mut headers: Vec<(String, String)> = Vec::new();
            headers.push(server_header_pair());
            let w = WireResponse { status: 200, headers, body: String::new() };
            proof {
                assert(w@.headers =~= seq![server_header_view()]);
            }
            Ok(w)
        },
        Value::Record(entries) => encode_record(accept, req_ct, entries),
        _ => Ok(bad_return_response(v)),
    }
}

/// Builds the 500 response describing an invalid return shape.
fn bad_return_response(v: &Value) -> (r: WireResponse)
    ensures
        r@ == bad_return_view(*v),
{
    let mut headers: Vec<(String, String)> = Vec::new();
    headers.push(server_header_pair());
    let mut body = String::new();
    body.append("SERVER ERROR: BAD RETURN ");
    let rendered = render_plain(v);
    body.append(rendered.as_str());
    let w = WireResponse { status: 500, headers, body };
    proof {
        assert(w@.headers =~= seq![server_header_view()]);
    }
    w
}

/// Encodes a `{status, body, headers}` record.
fn encode_record(
    accept: &Option<String>,
    req_ct: &Option<String>,
    entries: &Vec<(String, Value)>,
) -> (r: Result<WireResponse, EncodeError>)
    ensures
        match r {
            Ok(w) => encode_record_spec(opt_view(*accept), opt_view(*req_ct), entries@) == Ok::<
                WireView,
                EncodeError,
            >(w@),
            Err(e) => encode_record_spec(opt_view(*accept), opt_view(*req_ct), entries@) == Err::<
                WireView,
                EncodeError,
            >(e),
        },
{
    let status_v = match crate::value::record_get(entries, "status") {
        Some(sv) => sv,
        None => {
            return Err(EncodeError::MissingStatus);
        },
    };
    let body_v = match crate::value::record_get(entries, "body") {
        Some(bv) => bv,
        None => {
            return Err(EncodeError::MissingBody);
        },
    };
    let empty_hdrs: Vec<(String, Value)> = Vec::new();
    let hdrs: &Vec<(String, Value)> = match crate::value::record_get(entries, "headers") {
        Some(Value::Record(h)) => h,
        _ => &empty_hdrs,
    };
    proof {
        assert(empty_hdrs@ =~= Seq::<(String, Value)>::empty());
    }
    let ct: String = match find_ct_header(hdrs) {
        Some(cv) => render_plain(cv),
        None => match req_ct {
            Some(c) => c.clone(),
            None => match accept {
                Some(a) => a.clone(),
                None => "text/html".to_owned(),
            },
        },
    };
    let body: String = if str_eq(ct.as_str(), "application/json") {
        match render_json(body_v) {
            Some(t) => t,
            None => {
                return Err(EncodeError::NoJsonForm);
            },
        }
    } else {
        render_plain(body_v)
    };
    let status: u16 = match status_v {
        Value::Int(n) => {
            if 0 <= *n && *n < 65536 {
                *n as u16
            } else {
                200
            }
        },
        _ => 200,
    };
    let mut headers: Vec<(String, String)> = Vec::new();
    headers.push(server_header_pair());
    let n = hdrs.len();
    for i in 0..n
        invariant
            n == hdrs@.len(),
            headers@.map_values(|h: (String, String)| (h.0@, h.1@)) =~= seq![server_header_view()]
                + header_views(hdrs@.take(i as int)),
    {
        let ghost hv_before = headers@.map_values(|h: (String, String)| (h.0@, h.1@));
        let rendered = render_plain(&hdrs[i].1);
        headers.push((hdrs[i].0.clone(), rendered));
        proof {
            assert(headers@.map_values(|h: (String, String)| (h.0@, h.1@)) =~= hv_before.push(
                (hdrs@[i as int].0@, plain_of(hdrs@[i as int].1)),
            ));
            assert(header_views(hdrs@.take(i + 1)) =~= header_views(hdrs@.take(i as int)).push(
                (hdrs@[i as int].0@, plain_of(hdrs@[i as int].1)),
            ));
            assert(headers@.map_values(|h: (String, String)| (h.0@, h.1@)) =~= seq![
                server_header_view()] + header_views(hdrs@.take(i + 1)));
        }
    }
    proof {
        assert(hdrs@.take(n as int) =~= hdrs@);
    }
    let w = WireResponse { status, headers, body };
    Ok(w)
}

/// The response a request gets when neither a route nor a static file
/// answers it.
pub fn not_found_response() -> (r: WireResponse)
    ensures
        r@.status == 404,
        r@.headers == seq![server_header_view()],
        r@.body == "NOT FOUND"@,
{
    let mut headers: Vec<(String, String)> = Vec::new();
    headers.push(server_header_pair());
    let w = WireResponse { status: 404, headers, body: "NOT FOUND".to_owned() };
    proof {
        assert(w@.headers =~= seq![server_header_view()]);
    }
    w
}

/// A record answering without a `status` field is a descriptive error,
/// never a guessed response; so is one without a `body`.
pub proof fn lemma_missing_field_is_error(
    accept: Option<Seq<char>>,
    req_ct: Option<Seq<char>>,
    entries: Seq<(String, Value)>,
)
    ensures
        record_lookup(entries, "status"@) is None ==> encode_record_spec(accept, req_ct, entries)
            == Err::<WireView, EncodeError>(EncodeError::MissingStatus),
        record_lookup(entries, "status"@) is Some && record_lookup(entries, "body"@) is None
            ==> encode_record_spec(accept, req_ct, entries) == Err::<WireView, EncodeError>(
            EncodeError::MissingBody,
        ),
{
}

/// An error value under a JSON Accept header answers 400 with the JSON
/// error object.
pub proof fn lemma_error_answers_json(
    accept: Option<Seq<char>>,
    req_ct: Option<Seq<char>>,
    msg: Seq<char>,
)
    requires
        accept == Some("application/json"@),
    ensures
        forall|m: String|
            m@ == msg ==> encode_spec(accept, req_ct, Value::Error(m)) == Ok::<
                WireView,
                EncodeError,
            >(
                WireView {
                    status: 400,
                    headers: seq![server_header_view(), json_header_view()],
                    body: error_json_body(msg),
                },
            ),
{
}

} // verus!
