use adana_http::EncodeError;
use adana_http::Value;
use adana_http::encode_response;
use adana_http::i128_to_string;
use adana_http::not_found_response;
use adana_http::render_json;
use adana_http::render_plain;

fn rec(fields: Vec<(&str, Value)>) -> Value {
    Value::Record(
        fields
            .into_iter()
            .map(|(k, v)| (k.to_string(), v))
            .collect(),
    )
}

fn header<'a>(headers: &'a [(String, String)], name: &str) -> Option<&'a str> {
    headers
        .iter()
        .find(|(k, _)| k == name)
        .map(|(_, v)| v.as_str())
}

#[test]
fn decimal_rendering() {
    assert_eq!(i128_to_string(0), "0");
    assert_eq!(i128_to_string(42), "42");
    assert_eq!(i128_to_string(-7), "-7");
    assert_eq!(i128_to_string(i128::MAX), format!("{}", i128::MAX));
    assert_eq!(i128_to_string(i128::MIN), format!("{}", i128::MIN));
}

#[test]
fn plain_rendering_shapes() {
    assert_eq!(render_plain(&Value::Null), "null");
    assert_eq!(render_plain(&Value::Bool(true)), "true");
    assert_eq!(render_plain(&Value::Int(12)), "12");
    assert_eq!(render_plain(&Value::Str("x".to_string())), "x");
    assert_eq!(render_plain(&Value::Unit), "");
    let arr = Value::Array(vec![Value::Int(1), Value::Str("two".to_string())]);
    assert_eq!(render_plain(&arr), "[1, two]");
    let record = rec(vec![("a", Value::Int(1)), ("b", Value::Bool(false))]);
    assert_eq!(render_plain(&record), "{a: 1, b: false}");
}

#[test]
fn json_rendering_escapes() {
    let v = Value::Str("a\"b\\c\nd".to_string());
    assert_eq!(render_json(&v).unwrap(), "\"a\\\"b\\\\c\\nd\"");
    assert!(render_json(&Value::Unit).is_none());
    assert!(render_json(&Value::Opaque).is_none());
}

#[test]
fn string_return_echoes_accept_header() {
    let accept = Some("text/csv".to_string());
    let w = encode_response(&accept, &None, &Value::Str("a,b".to_string())).unwrap();
    assert_eq!(w.status, 200);
    assert_eq!(w.body, "a,b");
    assert_eq!(header(&w.headers, "Server"), Some("Adana"));
    assert_eq!(header(&w.headers, "Content-Type"), Some("text/csv"));

    let w = encode_response(&None, &None, &Value::Str("plain".to_string())).unwrap();
    assert_eq!(w.status, 200);
    assert!(header(&w.headers, "Content-Type").is_none());
}

#[test]
fn error_with_json_accept_is_400_json() {
    let accept = Some("application/json".to_string());
    let w = encode_response(&accept, &None, &Value::Error("boom".to_string())).unwrap();
    assert_eq!(w.status, 400);
    assert_eq!(header(&w.headers, "Content-Type"), Some("application/json"));
    let parsed: serde_json::Value = serde_json::from_str(&w.body).unwrap();
    assert_eq!(parsed["error"], serde_json::Value::String("boom".to_string()));
}

#[test]
fn error_without_json_accept_is_plain_400() {
    let w = encode_response(&None, &None, &Value::Error("boom".to_string())).unwrap();
    assert_eq!(w.status, 400);
    assert_eq!(w.body, "Error: boom");
}

#[test]
fn unit_returns_empty_200() {
    let w = encode_response(&None, &None, &Value::Unit).unwrap();
    assert_eq!(w.status, 200);
    assert_eq!(w.body, "");
}

#[test]
fn array_with_json_accept_is_json_200() {
    let accept = Some("application/json".to_string());
    let arr = Value::Array(vec![Value::Int(1), Value::Int(2)]);
    let w = encode_response(&accept, &None, &arr).unwrap();
    assert_eq!(w.status, 200);
    assert_eq!(w.body, "[1,2]");
    assert_eq!(header(&w.headers, "Content-Type"), Some("application/json"));
}

#[test]
fn unsupported_returns_are_500() {
    for v in [
        Value::Int(5),
        Value::Bool(true),
        Value::Null,
        Value::Array(vec![Value::Int(1)]),
        Value::Opaque,
        Value::Function { arity: 2, token: 0 },
    ] {
        let w = encode_response(&None, &None, &v).unwrap();
        assert_eq!(w.status, 500);
        assert!(w.body.starts_with("SERVER ERROR: BAD RETURN"));
    }
}

#[test]
fn record_missing_status_is_descriptive_error() {
    let v = rec(vec![("body", Value::Str("x".to_string()))]);
    let e = encode_response(&None, &None, &v).err().unwrap();
    assert_eq!(e, EncodeError::MissingStatus);
    assert_eq!(e.message(), "missing status in response (e.g 200)");
}

#[test]
fn record_missing_body_is_descriptive_error() {
    let v = rec(vec![("status", Value::Int(200))]);
    let e = encode_response(&None, &None, &v).err().unwrap();
    assert_eq!(e, EncodeError::MissingBody);
}

#[test]
fn json_content_type_with_unrenderable_body_is_an_error() {
    let v = rec(vec![
        ("status", Value::Int(200)),
        ("body", Value::Opaque),
        (
            "headers",
            rec(vec![("Content-Type", Value::Str("application/json".to_string()))]),
        ),
    ]);
    assert_eq!(encode_response(&None, &None, &v).err(), Some(EncodeError::NoJsonForm));

    let accept = Some("application/json".to_string());
    let arr = Value::Array(vec![Value::Opaque]);
    assert_eq!(
        encode_response(&accept, &None, &arr).err(),
        Some(EncodeError::NoJsonForm)
    );
}

#[test]
fn record_response_with_status_and_body() {
    let v = rec(vec![
        ("status", Value::Int(201)),
        ("body", Value::Str("made".to_string())),
    ]);
    let w = encode_response(&None, &None, &v).unwrap();
    assert_eq!(w.status, 201);
    assert_eq!(w.body, "made");
    assert_eq!(header(&w.headers, "Server"), Some("Adana"));
}

#[test]
fn record_status_defaults_to_200_when_not_integer() {
    let v = rec(vec![
        ("status", Value::Str("created".to_string())),
        ("body", Value::Str("x".to_string())),
    ]);
    let w = encode_response(&None, &None, &v).unwrap();
    assert_eq!(w.status, 200);
}

#[test]
fn record_json_content_type_encodes_body_as_json() {
    let v = rec(vec![
        ("status", Value::Int(200)),
        ("body", rec(vec![("a", Value::Int(1))])),
        (
            "headers",
            rec(vec![("Content-Type", Value::Str("application/json".to_string()))]),
        ),
    ]);
    let w = encode_response(&None, &None, &v).unwrap();
    assert_eq!(w.body, "{\"a\":1}");
    assert_eq!(header(&w.headers, "Content-Type"), Some("application/json"));
}

#[test]
fn record_content_type_falls_back_to_request() {
    let v = rec(vec![
        ("status", Value::Int(200)),
        ("body", rec(vec![("a", Value::Int(1))])),
    ]);
    let req_ct = Some("application/json".to_string());
    let w = encode_response(&None, &req_ct, &v).unwrap();
    assert_eq!(w.body, "{\"a\":1}");
    let w = encode_response(&None, &None, &v).unwrap();
    assert_eq!(w.body, "{a: 1}");
}

#[test]
fn early_return_unwraps_before_encoding() {
    let v = Value::EarlyReturn(Box::new(Value::Str("inner".to_string())));
    let w = encode_response(&None, &None, &v).unwrap();
    assert_eq!(w.status, 200);
    assert_eq!(w.body, "inner");
}

#[test]
fn not_found_is_404() {
    let w = not_found_response();
    assert_eq!(w.status, 404);
    assert_eq!(w.body, "NOT FOUND");
    assert_eq!(header(&w.headers, "Server"), Some("Adana"));
}
