//! Building the structured request record a handler receives: headers
//! and query copied into records, the path and method as text, the
//! captured path variables, and the body decoded by content type —
//! JSON into `body`, multipart and url-encoded forms into `form`, and
//! anything else left null.

use vstd::prelude::*;
use crate::json::json_parse_spec;
use crate::json::jview;
use crate::json::parse_json_text;
use crate::multipart::PartView;
use crate::multipart::boundary_of;
use crate::multipart::extract_boundary;
use crate::multipart::multipart_spec;
use crate::multipart::parse_multipart;
use crate::multipart::part_views;
use crate::segment::first_sep_at;
use crate::text::ascii_eq_fold;
use crate::text::eq_ignore_case;
use crate::urlparse::extract_request_path;
use crate::urlparse::extract_request_query;
use crate::urlparse::pair_views;
use crate::urlparse::parse_query_pairs;
use crate::urlparse::query_pairs_of;
use crate::urlparse::request_path_of;
use crate::urlparse::request_query_of;
use crate::value::Value;
use crate::value::record_insert;
use crate::value::record_keys_unique;
use crate::value::record_lookup;
use vstd::string::StrSliceExecFns;

verus! {

/// The wire request as the host hands it over: plain values only.
pub struct RawRequest {
    /// The request method, as written on the request line.
    pub method: String,
    /// The request target (path, query and all).
    pub url: String,
    /// The header fields, in wire order.
    pub headers: Vec<(String, String)>,
    /// The request body, read in full.
    pub body: String,
}

/// The mathematical shape of a [`RawRequest`].
pub struct RawRequestView {
    pub method: Seq<char>,
    pub url: Seq<char>,
    pub headers: Seq<(Seq<char>, Seq<char>)>,
    pub body: Seq<char>,
}

impl View for RawRequest {
    type V = RawRequestView;

    open spec fn view(&self) -> RawRequestView {
        RawRequestView {
            method: self.method@,
            url: self.url@,
            headers: pair_views(self.headers@),
            body: self.body@,
        }
    }
}

/// Why decoding a request body failed.
#[derive(Clone, Copy, PartialEq, Eq, Structural, Debug)]
pub enum DecodeError {
    /// The body is no JSON the reader accepts.
    BadJson,
    /// The body is no multipart form, or the content type names no
    /// boundary.
    BadMultipart,
}

impl DecodeError {
    /// A descriptive message for the failure.
    pub fn message(&self) -> String {
        match self {
            DecodeError::BadJson => "could not parse json body".to_owned(),
            DecodeError::BadMultipart => "could not parse multipart".to_owned(),
        }
    }
}

/// The value under the rearmost pair with exactly this key.
pub open spec fn pairs_lookup(hs: Seq<(Seq<char>, Seq<char>)>, k: Seq<char>) -> Option<Seq<char>>
    decreases hs.len(),
{
    if hs.len() == 0 {
        None
    } else if hs.last().0 == k {
        Some(hs.last().1)
    } else {
        pairs_lookup(hs.drop_last(), k)
    }
}

/// The value of the first header whose name equals `name` up to ASCII
/// case.
pub open spec fn header_value(hs: Seq<(Seq<char>, Seq<char>)>, name: Seq<char>) -> Option<
    Seq<char>,
>
    decreases hs.len(),
{
    if hs.len() == 0 {
        None
    } else if ascii_eq_fold(hs[0].0, name) {
        Some(hs[0].1)
    } else {
        header_value(hs.drop_first(), name)
    }
}

/// Finds a header by name, treating ASCII case alike.
pub fn find_header(headers: &Vec<(String, String)>, name: &str) -> (r: Option<String>)
    ensures
        match r {
            Some(v) => header_value(pair_views(headers@), name@) == Some(v@),
            None => header_value(pair_views(headers@), name@) is None,
        },
{
    let n = headers.len();
    proof {
        assert(pair_views(headers@).skip(0) =~= pair_views(headers@));
    }
    for i in 0..n
        invariant
            n == headers@.len(),
            header_value(pair_views(headers@), name@) == header_value(
                pair_views(headers@).skip(i as int),
                name@,
            ),
    {
        proof {
            assert(pair_views(headers@).skip(i as int)[0] == pair_views(headers@)[i as int]);
        }
        if eq_ignore_case(headers[i].0.as_str(), name) {
            return Some(headers[i].1.clone());
        }
        proof {
            assert(pair_views(headers@).skip(i as int).drop_first() =~= pair_views(headers@).skip(
                i + 1,
            ));
        }
    }
    proof {
        assert(pair_views(headers@).skip(n as int) =~= Seq::<(Seq<char>, Seq<char>)>::empty());
    }
    None
}

/// The media type of a Content-Type value: everything before its first
/// `;`.
pub open spec fn media_type(ct: Seq<char>) -> Seq<char> {
    ct.take(first_sep_at(ct, ';', 0))
}

/// True when the value's media type is `name` up to ASCII case.
pub open spec fn is_media(ct: Seq<char>, name: Seq<char>) -> bool {
    ascii_eq_fold(media_type(ct), name)
}

/// Compares a Content-Type value's media type against a name.
pub fn is_media_exec(ct: &str, name: &str) -> (r: bool)
    ensures
        r == is_media(ct@, name@),
{
    let semi = crate::urlparse::find_char(ct, ';');
    proof {
        crate::segment::lemma_first_sep_at_bounds(ct@, ';', 0);
    }
    let mt = ct.substring_char(0, semi);
    proof {
        assert(mt@ =~= media_type(ct@));
    }
    eq_ignore_case(mt, name)
}

/// True when the record holds, under every key, exactly the text the
/// pair list's rearmost pair with that key carries.
pub open spec fn record_matches_pairs(
    entries: Seq<(String, Value)>,
    pairs: Seq<(Seq<char>, Seq<char>)>,
) -> bool {
    forall|k: Seq<char>|
        crate::matcher::opt_text_matches(#[trigger] record_lookup(entries, k), pairs_lookup(pairs, k))
}

/// Copies a pair list into a record of text values; on a repeated key
/// the last pair wins.
pub fn pairs_to_record(pairs: &Vec<(String, String)>) -> (r: Vec<(String, Value)>)
    ensures
        record_matches_pairs(r@, pair_views(pairs@)),
        record_keys_unique(r@),
{
    let n = pairs.len();
    let mut entries: Vec<(String, Value)> = Vec::new();
    proof {
        assert(pair_views(pairs@).take(0) =~= Seq::<(Seq<char>, Seq<char>)>::empty());
    }
    for i in 0..n
        invariant
            n == pairs@.len(),
            record_matches_pairs(entries@, pair_views(pairs@).take(i as int)),
            record_keys_unique(entries@),
    {
        let ghost before = entries@;
        record_insert(&mut entries, pairs[i].0.clone(), Value::Str(pairs[i].1.clone()));
        proof {
            let pv = pair_views(pairs@);
            assert(pv[i as int] == (pairs@[i as int].0@, pairs@[i as int].1@));
            assert forall|k: Seq<char>|
                crate::matcher::opt_text_matches(
                    #[trigger] record_lookup(entries@, k),
                    pairs_lookup(pv.take(i + 1), k),
                ) by {
                assert(pv.take(i + 1).last() == pv[i as int]);
                assert(pv.take(i + 1).drop_last() =~= pv.take(i as int));
                if k == pairs@[i as int].0@ {
                    assert(record_lookup(entries@, k) == Some(
                        Value::Str(pairs@[i as int].1),
                    ));
                } else {
                    assert(record_lookup(entries@, k) == record_lookup(before, k));
                }
            }
        }
    }
    proof {
        assert(pair_views(pairs@).take(n as int) =~= pair_views(pairs@));
    }
    entries
}

/// The rearmost part sent under the field name `k`.
pub open spec fn parts_lookup(ps: Seq<PartView>, k: Seq<char>) -> Option<PartView>
    decreases ps.len(),
{
    if ps.len() == 0 {
        None
    } else if ps.last().name == k {
        Some(ps.last())
    } else {
        parts_lookup(ps.drop_last(), k)
    }
}

/// True when a form record's value presents the part faithfully: a part
/// with a file name becomes a three-field record of file name, content
/// type (empty when the part sent none) and content; a part without one
/// becomes its content text.
pub open spec fn part_value_matches(v: Value, p: PartView) -> bool {
    match p.filename {
        Some(fname) => {
            &&& v matches Value::Record(entries)
            &&& entries@.len() == 3
            &&& record_lookup(entries@, "file_name"@) matches Some(Value::Str(f)) && f@ == fname
            &&& record_lookup(entries@, "content_type"@) matches Some(Value::Str(c)) && c@ == (
                match p.content_type {
                    Some(ct) => ct,
                    None => Seq::empty(),
                })
            &&& record_lookup(entries@, "content"@) matches Some(Value::Str(d)) && d@ == p.data
        },
        None => v matches Value::Str(s) && s@ == p.data,
    }
}

/// True when the form record holds, under every field name, exactly
/// what the rearmost part with that name decodes to.
pub open spec fn record_matches_parts(entries: Seq<(String, Value)>, ps: Seq<PartView>) -> bool {
    forall|k: Seq<char>|
        match (#[trigger] record_lookup(entries, k), parts_lookup(ps, k)) {
            (Some(v), Some(p)) => part_value_matches(v, p),
            (None, None) => true,
            _ => false,
        }
}

/// Builds the record value one part decodes to.
fn part_to_value(part: &crate::multipart::Part) -> (r: Value)
    ensures
        part_value_matches(r, part@),
{
    proof {
        reveal_strlit("file_name");
        reveal_strlit("content_type");
        reveal_strlit("content");
        assert("file_name"@.len() == 9);
        assert("content_type"@.len() == 12);
        assert("content"@.len() == 7);
        assert("file_name"@ != "content_type"@);
        assert("file_name"@ != "content"@);
        assert("content_type"@ != "content"@);
    }
    match &part.filename {
        Some(fname) => {
            let mut entries: Vec<(String, Value)> = Vec::new();
            record_insert(&mut entries, "file_name".to_owned(), Value::Str(fname.clone()));
            let ghost e1 = entries@;
            proof {
                assert(record_lookup(e1, "content_type"@) is None);
                assert(record_lookup(e1, "content"@) is None);
            }
            let ct: String = match &part.content_type {
                Some(c) => c.clone(),
                None => String::new(),
            };
            let ghost ctv = ct@;
            record_insert(&mut entries, "content_type".to_owned(), Value::Str(ct));
            let ghost e2 = entries@;
            proof {
                assert(entries@.len() == 2);
                assert(record_lookup(e2, "content"@) is None);
                assert(record_lookup(e2, "file_name"@) matches Some(Value::Str(f)) && f@
                    == fname@);
            }
            record_insert(&mut entries, "content".to_owned(), Value::Str(part.data.clone()));
            proof {
                assert(entries@.len() == 3);
                assert(record_lookup(entries@, "file_name"@) matches Some(Value::Str(f)) && f@
                    == fname@);
                assert(record_lookup(entries@, "content_type"@) matches Some(Value::Str(c)) && c@
                    == ctv);
                assert(record_lookup(entries@, "content"@) matches Some(Value::Str(d)) && d@
                    == part.data@);
            }
            Value::Record(entries)
        },
        None => Value::Str(part.data.clone()),
    }
}

/// Copies decoded parts into the form record; on a repeated field name
/// the last part wins.
fn parts_to_record(parts: &Vec<crate::multipart::Part>) -> (r: Vec<(String, Value)>)
    ensures
        record_matches_parts(r@, part_views(parts@)),
        record_keys_unique(r@),
{
    let n = parts.len();
    let mut entries: Vec<(String, Value)> = Vec::new();
    proof {
        assert(part_views(parts@).take(0) =~= Seq::<PartView>::empty());
    }
    for i in 0..n
        invariant
            n == parts@.len(),
            record_matches_parts(entries@, part_views(parts@).take(i as int)),
            record_keys_unique(entries@),
    {
        let ghost before = entries@;
        let v = part_to_value(&parts[i]);
        let ghost vv = v;
        record_insert(&mut entries, parts[i].name.clone(), v);
        proof {
            let pv = part_views(parts@);
            assert(pv[i as int] == parts@[i as int]@);
            assert forall|k: Seq<char>|
                match (#[trigger] record_lookup(entries@, k), parts_lookup(pv.take(i + 1), k)) {
                    (Some(v2), Some(p)) => part_value_matches(v2, p),
                    (None, None) => true,
                    _ => false,
                } by {
                assert(pv.take(i + 1).last() == pv[i as int]);
                assert(pv.take(i + 1).drop_last() =~= pv.take(i as int));
                if k == parts@[i as int].name@ {
                    assert(record_lookup(entries@, k) == Some(vv));
                } else {
                    assert(record_lookup(entries@, k) == record_lookup(before, k));
                }
            }
        }
    }
    proof {
        assert(part_views(parts@).take(n as int) =~= part_views(parts@));
    }
    entries
}

/// True when the decoded body and form fields are what the request's
/// content type asks for: JSON fills `body`, a multipart or url-encoded
/// form fills `form`, anything else leaves both null.
pub open spec fn body_form_ok(raw: RawRequestView, body: Value, form: Value) -> bool {
    let ct = header_value(raw.headers, "Content-Type"@);
    match ct {
        Some(c) => {
            if is_media(c, "application/json"@) {
                &&& json_parse_spec(raw.body) is Some
                &&& jview(body) == json_parse_spec(raw.body)
                &&& form == Value::Null
            } else if is_media(c, "multipart/form-data"@) {
                &&& body == Value::Null
                &&& boundary_of(c) matches Some(b)
                &&& multipart_spec(raw.body, b) matches Some(ps)
                &&& form matches Value::Record(fe) && record_matches_parts(fe@, ps)
            } else if is_media(c, "application/x-www-form-urlencoded"@) {
                &&& body == Value::Null
                &&& form matches Value::Record(fe) && record_matches_pairs(
                    fe@,
                    query_pairs_of(raw.body),
                )
            } else {
                body == Value::Null && form == Value::Null
            }
        },
        None => body == Value::Null && form == Value::Null,
    }
}

/// True when a body decode must fail with exactly this error.
pub open spec fn decode_fails(raw: RawRequestView, e: DecodeError) -> bool {
    let ct = header_value(raw.headers, "Content-Type"@);
    match ct {
        Some(c) => {
            if is_media(c, "application/json"@) {
                e == DecodeError::BadJson && json_parse_spec(raw.body) is None
            } else if is_media(c, "multipart/form-data"@) {
                e == DecodeError::BadMultipart && (match boundary_of(c) {
                    Some(b) => multipart_spec(raw.body, b) is None,
                    None => true,
                })
            } else {
                false
            }
        },
        None => false,
    }
}

/// True when the record is the request record the raw request and the
/// captured path variables decode to.
pub open spec fn request_record_ok(
    entries: Seq<(String, Value)>,
    raw: RawRequestView,
    params: Seq<(String, Value)>,
) -> bool {
    &&& record_lookup(entries, "path"@) matches Some(Value::Str(p)) && p@ == request_path_of(
        raw.url,
    )
    &&& record_lookup(entries, "method"@) matches Some(Value::Str(m)) && m@ == raw.method
    &&& record_lookup(entries, "params"@) matches Some(Value::Record(ps)) && ps@ == params
    &&& record_lookup(entries, "headers"@) matches Some(Value::Record(hs)) && record_matches_pairs(
        hs@,
        raw.headers,
    )
    &&& record_lookup(entries, "query"@) matches Some(Value::Record(qs)) && record_matches_pairs(
        qs@,
        query_pairs_of(request_query_of(raw.url)),
    )
    &&& record_lookup(entries, "body"@) matches Some(body) && record_lookup(entries, "form"@)
        matches Some(form) && body_form_ok(raw, body, form)
}

/// Builds the request record handed to a handler, decoding the body by
/// content type; a malformed body is this request's error alone.
pub fn build_request_record(raw: &RawRequest, params: Vec<(String, Value)>) -> (r: Result<
    Vec<(String, Value)>,
    DecodeError,
>)
    ensures
        match r {
            Ok(entries) => request_record_ok(entries@, raw@, params@),
            Err(e) => decode_fails(raw@, e),
        },
{
    let path = extract_request_path(raw.url.as_str());
    let query_str = extract_request_query(raw.url.as_str());
    let query_pairs = parse_query_pairs(query_str.as_str());
    let headers_rec = pairs_to_record(&raw.headers);
    let query_rec = pairs_to_record(&query_pairs);
    let ct = find_header(&raw.headers, "Content-Type");
    let mut body_val = Value::Null;
    let mut form_val = Value::Null;
    match &ct {
        Some(c) => {
            if is_media_exec(c.as_str(), "application/json") {
                match parse_json_text(raw.body.as_str()) {
                    Some(v) => {
                        body_val = v;
                    },
                    None => {
                        return Err(DecodeError::BadJson);
                    },
                }
            } else if is_media_exec(c.as_str(), "multipart/form-data") {
                let boundary = match extract_boundary(c.as_str()) {
                    Some(b) => b,
                    None => {
                        return Err(DecodeError::BadMultipart);
                    },
                };
                let parts = match parse_multipart(raw.body.as_str(), boundary.as_str()) {
                    Some(p) => p,
                    None => {
                        return Err(DecodeError::BadMultipart);
                    },
                };
                form_val = Value::Record(parts_to_record(&parts));
            } else if is_media_exec(c.as_str(), "application/x-www-form-urlencoded") {
                let pairs = parse_query_pairs(raw.body.as_str());
                form_val = Value::Record(pairs_to_record(&pairs));
            }
        },
        None => {},
    }
    let ghost bv = body_val;
    let ghost fv = form_val;
    proof {
        reveal_strlit("headers");
        reveal_strlit("query");
        reveal_strlit("body");
        reveal_strlit("form");
        reveal_strlit("path");
        reveal_strlit("method");
        reveal_strlit("params");
        assert("headers"@.len() == 7);
        assert("query"@.len() == 5);
        assert("body"@.len() == 4);
        assert("form"@.len() == 4);
        assert("path"@.len() == 4);
        assert("method"@.len() == 6);
        assert("params"@.len() == 6);
        assert("body"@[0] == 'b' && "form"@[0] == 'f' && "path"@[0] == 'p');
        assert("method"@[0] == 'm' && "params"@[0] == 'p');
        assert("body"@ != "form"@ && "body"@ != "path"@ && "form"@ != "path"@);
        assert("method"@ != "params"@);
        assert(body_form_ok(raw@, bv, fv));
    }
    let ghost hv = headers_rec@;
    let ghost qv = query_rec@;
    let ghost pathv = path@;
    let ghost paramsv = params@;
    let mut entries: Vec<(String, Value)> = Vec::new();
    record_insert(&mut entries, "headers".to_owned(), Value::Record(headers_rec));
    record_insert(&mut entries, "query".to_owned(), Value::Record(query_rec));
    proof {
        assert(record_lookup(entries@, "headers"@) matches Some(Value::Record(h)) && h@ == hv);
    }
    record_insert(&mut entries, "body".to_owned(), body_val);
    proof {
        assert(record_lookup(entries@, "headers"@) matches Some(Value::Record(h)) && h@ == hv);
        assert(record_lookup(entries@, "query"@) matches Some(Value::Record(q)) && q@ == qv);
    }
    record_insert(&mut entries, "form".to_owned(), form_val);
    proof {
        assert(record_lookup(entries@, "headers"@) matches Some(Value::Record(h)) && h@ == hv);
        assert(record_lookup(entries@, "query"@) matches Some(Value::Record(q)) && q@ == qv);
        assert(record_lookup(entries@, "body"@) == Some(bv));
    }
    record_insert(&mut entries, "path".to_owned(), Value::Str(path));
    proof {
        assert(record_lookup(entries@, "headers"@) matches Some(Value::Record(h)) && h@ == hv);
        assert(record_lookup(entries@, "query"@) matches Some(Value::Record(q)) && q@ == qv);
        assert(record_lookup(entries@, "body"@) == Some(bv));
        assert(record_lookup(entries@, "form"@) == Some(fv));
    }
    record_insert(&mut entries, "method".to_owned(), Value::Str(raw.method.clone()));
    proof {
        assert(record_lookup(entries@, "headers"@) matches Some(Value::Record(h)) && h@ == hv);
        assert(record_lookup(entries@, "query"@) matches Some(Value::Record(q)) && q@ == qv);
        assert(record_lookup(entries@, "body"@) == Some(bv));
        assert(record_lookup(entries@, "form"@) == Some(fv));
        assert(record_lookup(entries@, "path"@) matches Some(Value::Str(p)) && p@ == pathv);
    }
    record_insert(&mut entries, "params".to_owned(), Value::Record(params));
    proof {
        assert(record_lookup(entries@, "headers"@) matches Some(Value::Record(h)) && h@ == hv);
        assert(record_lookup(entries@, "query"@) matches Some(Value::Record(q)) && q@ == qv);
        assert(record_lookup(entries@, "body"@) == Some(bv));
        assert(record_lookup(entries@, "form"@) == Some(fv));
        assert(record_lookup(entries@, "path"@) matches Some(Value::Str(p)) && p@ == pathv);
        assert(record_lookup(entries@, "method"@) matches Some(Value::Str(m)) && m@
            == raw.method@);
        assert(record_lookup(entries@, "params"@) matches Some(Value::Record(ps)) && ps@
            == paramsv);
    }
    Ok(entries)
}

} // verus!
