use adana_http::CompileError;
use adana_http::Method;
use adana_http::PathSegment;
use adana_http::Value;
use adana_http::compile_route;
use adana_http::compile_routes;
use adana_http::compile_middleware;
use adana_http::find_route;
use adana_http::match_segments;
use adana_http::parse_method;
use adana_http::parse_route_path;
use adana_http::record_get;
use adana_http::tokenize_path;

fn str_val(s: &str) -> Value {
    Value::Str(s.to_string())
}

fn route_record(path: &str, method: &str, arity: usize, token: usize) -> Value {
    Value::Record(vec![
        ("path".to_string(), str_val(path)),
        ("method".to_string(), str_val(method)),
        ("handler".to_string(), Value::Function { arity, token }),
    ])
}

fn get_text(entries: &Vec<(String, Value)>, key: &str) -> Option<String> {
    match record_get(entries, key) {
        Some(Value::Str(s)) => Some(s.clone()),
        _ => None,
    }
}

#[test]
fn tokenize_root_and_empty() {
    let toks = tokenize_path("/");
    assert!(matches!(toks.as_slice(), [PathSegment::Root]));
    let toks = tokenize_path("");
    assert!(matches!(toks.as_slice(), [PathSegment::Root]));
}

#[test]
fn tokenize_drops_empty_pieces() {
    let toks = tokenize_path("/a//b/");
    assert_eq!(toks.len(), 2);
    assert!(matches!(&toks[0], PathSegment::Literal(t) if t == "a"));
    assert!(matches!(&toks[1], PathSegment::Literal(t) if t == "b"));
}

#[test]
fn route_path_root() {
    let segs = parse_route_path("/").unwrap();
    assert!(matches!(segs.as_slice(), [PathSegment::Root]));
}

#[test]
fn route_path_literals_and_variables() {
    let segs = parse_route_path("/api/:id/detail").unwrap();
    assert_eq!(segs.len(), 3);
    assert!(matches!(&segs[0], PathSegment::Literal(t) if t == "api"));
    assert!(matches!(&segs[1], PathSegment::Variable { position: 1, name } if name == "id"));
    assert!(matches!(&segs[2], PathSegment::Literal(t) if t == "detail"));
}

#[test]
fn route_path_must_be_absolute() {
    assert_eq!(parse_route_path("api").err(), Some(CompileError::PathNotAbsolute));
    assert_eq!(parse_route_path("").err(), Some(CompileError::PathNotAbsolute));
}

#[test]
fn exact_segment_count_matches() {
    let segs = parse_route_path("/a/b/c").unwrap();
    assert!(match_segments(&tokenize_path("/a/b/c"), &segs).is_some());
    assert!(match_segments(&tokenize_path("/a/b"), &segs).is_none());
    assert!(match_segments(&tokenize_path("/a/b/c/d"), &segs).is_none());
}

#[test]
fn variable_captures_any_text() {
    let segs = parse_route_path("/user/:name").unwrap();
    for value in ["alice", "42", "x-y_z"] {
        let path = format!("/user/{value}");
        let params = match_segments(&tokenize_path(&path), &segs).unwrap();
        assert_eq!(get_text(&params, "name").unwrap(), value);
    }
}

#[test]
fn literal_mismatch_rejects() {
    let segs = parse_route_path("/a/b").unwrap();
    assert!(match_segments(&tokenize_path("/a/x"), &segs).is_none());
}

#[test]
fn root_route_matches_only_root() {
    let segs = parse_route_path("/").unwrap();
    assert!(match_segments(&tokenize_path("/"), &segs).is_some());
    assert!(match_segments(&tokenize_path(""), &segs).is_some());
    assert!(match_segments(&tokenize_path("/a"), &segs).is_none());
    assert!(match_segments(&tokenize_path("/a/b"), &segs).is_none());
}

#[test]
fn method_selects_between_equal_shapes() {
    let routes = compile_routes(&vec![
        route_record("/thing", "GET", 2, 0),
        route_record("/thing", "POST", 2, 1),
    ])
    .unwrap();
    let toks = tokenize_path("/thing");
    let (idx, _) = find_route(&routes, Method::Get, &toks).unwrap();
    assert_eq!(idx, 0);
    let (idx, _) = find_route(&routes, Method::Post, &toks).unwrap();
    assert_eq!(idx, 1);
    assert!(find_route(&routes, Method::Delete, &toks).is_none());
}

#[test]
fn first_declared_route_wins() {
    let routes = compile_routes(&vec![
        route_record("/a/:x", "GET", 2, 0),
        route_record("/a/b", "GET", 2, 1),
    ])
    .unwrap();
    let (idx, params) = find_route(&routes, Method::Get, &tokenize_path("/a/b")).unwrap();
    assert_eq!(idx, 0);
    assert_eq!(get_text(&params, "x").unwrap(), "b");
}

#[test]
fn rejected_route_leaks_no_captures() {
    let routes = compile_routes(&vec![
        route_record("/a/:x/c", "GET", 2, 0),
        route_record("/a/b/d", "GET", 2, 1),
    ])
    .unwrap();
    let (idx, params) = find_route(&routes, Method::Get, &tokenize_path("/a/b/d")).unwrap();
    assert_eq!(idx, 1);
    assert!(record_get(&params, "x").is_none());
}

#[test]
fn parse_method_known_verbs() {
    assert_eq!(parse_method("GET"), Some(Method::Get));
    assert_eq!(parse_method("POST"), Some(Method::Post));
    assert_eq!(parse_method("PATCH"), Some(Method::Patch));
    assert_eq!(parse_method("get"), None);
    assert_eq!(parse_method("FETCH"), None);
}

#[test]
fn compile_route_validation_order() {
    assert_eq!(compile_route(&str_val("nope")).err(), Some(CompileError::NotARecord));
    let no_path = Value::Record(vec![("method".to_string(), str_val("GET"))]);
    assert_eq!(compile_route(&no_path).err(), Some(CompileError::MissingPath));
    let rel = route_record("x", "GET", 2, 0);
    assert_eq!(compile_route(&rel).err(), Some(CompileError::PathNotAbsolute));
    let no_handler = Value::Record(vec![("path".to_string(), str_val("/x"))]);
    assert_eq!(compile_route(&no_handler).err(), Some(CompileError::MissingHandler));
    let bad_arity = route_record("/x", "GET", 1, 0);
    assert_eq!(compile_route(&bad_arity).err(), Some(CompileError::WrongHandlerArity));
    let no_method = Value::Record(vec![
        ("path".to_string(), str_val("/x")),
        ("handler".to_string(), Value::Function { arity: 2, token: 0 }),
    ]);
    assert_eq!(compile_route(&no_method).err(), Some(CompileError::MissingMethod));
    let bad_method = route_record("/x", "FETCH", 2, 0);
    assert_eq!(compile_route(&bad_method).err(), Some(CompileError::UnknownMethod));
}

#[test]
fn compile_routes_stops_at_first_error() {
    let result = compile_routes(&vec![
        route_record("/ok", "GET", 2, 0),
        route_record("bad", "GET", 2, 1),
        route_record("/also-bad", "NOPE", 2, 2),
    ]);
    assert_eq!(result.err(), Some(CompileError::PathNotAbsolute));
}

#[test]
fn compile_middleware_wants_one_parameter() {
    let good = Value::Record(vec![
        ("path".to_string(), str_val("/mw/:id")),
        ("handler".to_string(), Value::Function { arity: 1, token: 7 }),
    ]);
    let mw = compile_middleware(&good).unwrap();
    assert_eq!(mw.handler, 7);
    assert_eq!(mw.segments.len(), 2);
    let bad = Value::Record(vec![
        ("path".to_string(), str_val("/mw")),
        ("handler".to_string(), Value::Function { arity: 2, token: 7 }),
    ]);
    assert_eq!(compile_middleware(&bad).err(), Some(CompileError::WrongMiddlewareArity));
}
