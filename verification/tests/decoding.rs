use adana_http::RawRequest;
use adana_http::DecodeError;
use adana_http::Value;
use adana_http::build_request_record;
use adana_http::extract_boundary;
use adana_http::extract_request_path;
use adana_http::extract_request_query;
use adana_http::parse_json_text;
use adana_http::parse_multipart;
use adana_http::parse_query_pairs;
use adana_http::pp_decode_str;
use adana_http::record_get;
use adana_http::render_json;

fn raw(method: &str, url: &str, headers: Vec<(&str, &str)>, body: &str) -> RawRequest {
    RawRequest {
        method: method.to_string(),
        url: url.to_string(),
        headers: headers
            .into_iter()
            .map(|(k, v)| (k.to_string(), v.to_string()))
            .collect(),
        body: body.to_string(),
    }
}

#[test]
fn path_and_query_split() {
    assert_eq!(extract_request_path("/a/b?x=1"), "/a/b");
    assert_eq!(extract_request_query("/a/b?x=1"), "x=1");
    assert_eq!(extract_request_path("/a/b"), "/a/b");
    assert_eq!(extract_request_query("/a/b"), "");
    assert_eq!(extract_request_path("/a#frag?x=1"), "/a");
    assert_eq!(extract_request_path("http://host:1234/p/q?x=1"), "/p/q");
    assert_eq!(extract_request_query("http://host/p?x=1"), "x=1");
    assert_eq!(extract_request_path("https://host"), "/");
}

#[test]
fn query_pairs_decode() {
    let pairs = parse_query_pairs("a=1&b=hello+world&c=%C3%A9&flag");
    assert_eq!(pairs.len(), 4);
    assert_eq!(pairs[0], ("a".to_string(), "1".to_string()));
    assert_eq!(pairs[1], ("b".to_string(), "hello world".to_string()));
    assert_eq!(pairs[2], ("c".to_string(), "\u{e9}".to_string()));
    assert_eq!(pairs[3], ("flag".to_string(), "".to_string()));
}

#[test]
fn query_pairs_match_form_urlencoded_crate() {
    let input = "a=1&b=hello+world&c=%41%20b&empty=";
    let mine = parse_query_pairs(input);
    let theirs: Vec<(String, String)> = form_urlencoded::parse(input.as_bytes())
        .into_owned()
        .collect();
    assert_eq!(mine, theirs);
}

#[test]
fn path_and_query_match_url_crate() {
    for target in ["/a/b?x=1&y=hello+world", "/plain", "/q?only=%C3%A9"] {
        let base = url::Url::parse("http://dummy.com").unwrap();
        let parsed = base.join(target).unwrap();
        assert_eq!(extract_request_path(target), parsed.path());
        let mine = parse_query_pairs(&extract_request_query(target));
        let theirs: Vec<(String, String)> = parsed.query_pairs().into_owned().collect();
        assert_eq!(mine, theirs);
    }
}

#[test]
fn percent_decoding_edge_cases() {
    assert_eq!(pp_decode_str("%41"), "A");
    assert_eq!(pp_decode_str("100%"), "100%");
    assert_eq!(pp_decode_str("%zz"), "%zz");
    assert_eq!(pp_decode_str("a+b"), "a b");
}

#[test]
fn json_scalars_and_collections() {
    assert!(matches!(parse_json_text("null"), Some(Value::Null)));
    assert!(matches!(parse_json_text("true"), Some(Value::Bool(true))));
    assert!(matches!(parse_json_text(" -42 "), Some(Value::Int(-42))));
    assert!(matches!(parse_json_text("\"hi\\n\""), Some(Value::Str(s)) if s == "hi\n"));
    let arr = parse_json_text("[1, 2, 3]").unwrap();
    match arr {
        Value::Array(items) => {
            assert_eq!(items.len(), 3);
            assert!(matches!(items[0], Value::Int(1)));
            assert!(matches!(items[2], Value::Int(3)));
        }
        other => panic!("expected an array, got {other:?}"),
    }
}

#[test]
fn json_rejects_malformed_bodies() {
    assert!(parse_json_text("").is_none());
    assert!(parse_json_text("{").is_none());
    assert!(parse_json_text("1.5").is_none());
    assert!(parse_json_text("1e3").is_none());
    assert!(parse_json_text("[1,]").is_none());
    assert!(parse_json_text("{\"a\":1} trailing").is_none());
    assert!(parse_json_text("\"unterminated").is_none());
}

#[test]
fn json_round_trip_through_serde() {
    let text = "{\"name\":\"caf\u{e9}\",\"count\":3,\"tags\":[\"a\",\"b\"],\"ok\":true,\"none\":null}";
    let mine = parse_json_text(text).unwrap();
    let rendered = render_json(&mine).unwrap();
    let reparsed: serde_json::Value = serde_json::from_str(&rendered).unwrap();
    let original: serde_json::Value = serde_json::from_str(text).unwrap();
    assert_eq!(reparsed, original);
}

#[test]
fn json_body_fills_body_field() {
    let rq = raw(
        "POST",
        "/submit",
        vec![("Content-Type", "application/json")],
        "{\"a\":1}",
    );
    let record = build_request_record(&rq, Vec::new()).unwrap();
    match record_get(&record, "body") {
        Some(Value::Record(body)) => {
            assert!(matches!(record_get(body, "a"), Some(Value::Int(1))));
        }
        other => panic!("expected a record body, got {other:?}"),
    }
    assert!(matches!(record_get(&record, "form"), Some(Value::Null)));
}

#[test]
fn missing_content_type_leaves_body_and_form_null() {
    let rq = raw("POST", "/submit", vec![], "{\"a\":1}");
    let record = build_request_record(&rq, Vec::new()).unwrap();
    assert!(matches!(record_get(&record, "body"), Some(Value::Null)));
    assert!(matches!(record_get(&record, "form"), Some(Value::Null)));
}

#[test]
fn malformed_json_body_is_a_request_error() {
    let rq = raw(
        "POST",
        "/submit",
        vec![("Content-Type", "application/json")],
        "{oops",
    );
    assert_eq!(build_request_record(&rq, Vec::new()).err(), Some(DecodeError::BadJson));
}

#[test]
fn urlencoded_body_fills_form() {
    let rq = raw(
        "POST",
        "/submit",
        vec![("Content-Type", "application/x-www-form-urlencoded")],
        "name=alice&city=new+york",
    );
    let record = build_request_record(&rq, Vec::new()).unwrap();
    match record_get(&record, "form") {
        Some(Value::Record(form)) => {
            assert!(matches!(record_get(form, "name"), Some(Value::Str(s)) if s == "alice"));
            assert!(matches!(record_get(form, "city"), Some(Value::Str(s)) if s == "new york"));
        }
        other => panic!("expected a form record, got {other:?}"),
    }
    assert!(matches!(record_get(&record, "body"), Some(Value::Null)));
}

#[test]
fn request_record_carries_all_fields() {
    let rq = raw("GET", "/users/7?full=1", vec![("Accept", "text/plain")], "");
    let params = vec![("id".to_string(), Value::Str("7".to_string()))];
    let record = build_request_record(&rq, params).unwrap();
    assert!(matches!(record_get(&record, "path"), Some(Value::Str(p)) if p == "/users/7"));
    assert!(matches!(record_get(&record, "method"), Some(Value::Str(m)) if m == "GET"));
    match record_get(&record, "query") {
        Some(Value::Record(q)) => {
            assert!(matches!(record_get(q, "full"), Some(Value::Str(s)) if s == "1"));
        }
        other => panic!("expected a query record, got {other:?}"),
    }
    match record_get(&record, "headers") {
        Some(Value::Record(h)) => {
            assert!(matches!(record_get(h, "Accept"), Some(Value::Str(s)) if s == "text/plain"));
        }
        other => panic!("expected a headers record, got {other:?}"),
    }
    match record_get(&record, "params") {
        Some(Value::Record(p)) => {
            assert!(matches!(record_get(p, "id"), Some(Value::Str(s)) if s == "7"));
        }
        other => panic!("expected a params record, got {other:?}"),
    }
}

#[test]
fn boundary_extraction() {
    assert_eq!(
        extract_boundary("multipart/form-data; boundary=XYZ").unwrap(),
        "XYZ"
    );
    assert_eq!(
        extract_boundary("multipart/form-data; boundary=\"quo ted\"; charset=utf-8").unwrap(),
        "quo ted"
    );
    assert!(extract_boundary("multipart/form-data").is_none());
}

#[test]
fn multipart_field_with_filename_becomes_file_record() {
    let body = "--B\r\nContent-Disposition: form-data; name=\"upload\"; filename=\"notes.txt\"\r\nContent-Type: text/plain\r\n\r\nhello file\r\n--B--";
    let parts = parse_multipart(body, "B").unwrap();
    assert_eq!(parts.len(), 1);
    assert_eq!(parts[0].name, "upload");
    assert_eq!(parts[0].filename.as_deref(), Some("notes.txt"));
    assert_eq!(parts[0].content_type.as_deref(), Some("text/plain"));
    assert_eq!(parts[0].data, "hello file");

    let rq = raw(
        "POST",
        "/upload",
        vec![("Content-Type", "multipart/form-data; boundary=B")],
        body,
    );
    let record = build_request_record(&rq, Vec::new()).unwrap();
    match record_get(&record, "form") {
        Some(Value::Record(form)) => match record_get(form, "upload") {
            Some(Value::Record(file)) => {
                assert!(
                    matches!(record_get(file, "file_name"), Some(Value::Str(s)) if s == "notes.txt")
                );
                assert!(
                    matches!(record_get(file, "content_type"), Some(Value::Str(s)) if s == "text/plain")
                );
                assert!(
                    matches!(record_get(file, "content"), Some(Value::Str(s)) if s == "hello file")
                );
            }
            other => panic!("expected a file record, got {other:?}"),
        },
        other => panic!("expected a form record, got {other:?}"),
    }
}

#[test]
fn multipart_field_without_filename_is_plain_text() {
    let body = "--B\r\nContent-Disposition: form-data; name=\"note\"\r\n\r\njust text\r\n--B--";
    let rq = raw(
        "POST",
        "/upload",
        vec![("Content-Type", "multipart/form-data; boundary=B")],
        body,
    );
    let record = build_request_record(&rq, Vec::new()).unwrap();
    match record_get(&record, "form") {
        Some(Value::Record(form)) => {
            assert!(matches!(record_get(form, "note"), Some(Value::Str(s)) if s == "just text"));
        }
        other => panic!("expected a form record, got {other:?}"),
    }
}

#[test]
fn multipart_two_fields() {
    let body = "--xx\r\nContent-Disposition: form-data; name=\"a\"\r\n\r\n1\r\n--xx\r\nContent-Disposition: form-data; name=\"b\"\r\n\r\n2\r\n--xx--";
    let parts = parse_multipart(body, "xx").unwrap();
    assert_eq!(parts.len(), 2);
    assert_eq!(parts[0].name, "a");
    assert_eq!(parts[0].data, "1");
    assert_eq!(parts[1].name, "b");
    assert_eq!(parts[1].data, "2");
}

#[test]
fn malformed_multipart_is_a_request_error() {
    let rq = raw(
        "POST",
        "/upload",
        vec![("Content-Type", "multipart/form-data; boundary=B")],
        "not a multipart body",
    );
    assert_eq!(build_request_record(&rq, Vec::new()).err(), Some(DecodeError::BadMultipart));
}
