use adana_http::CompileError;
use adana_http::LifecycleState;
use adana_http::RawRequest;
use adana_http::RouteOutcome;
use adana_http::StaticServe;
use adana_http::StopError;
use adana_http::Value;
use adana_http::bind_address;
use adana_http::compile_settings;
use adana_http::make_static_serve;
use adana_http::record_get;
use adana_http::resolve_static;
use adana_http::route_request;
use adana_http::static_file_headers;
use adana_http::stop_transition;

fn sval(s: &str) -> Value {
    Value::Str(s.to_string())
}

fn settings(routes: Vec<Value>, statics: Vec<Value>) -> Value {
    Value::Record(vec![
        ("routes".to_string(), Value::Array(routes)),
        ("static".to_string(), Value::Array(statics)),
        ("store".to_string(), Value::Record(Vec::new())),
    ])
}

fn route(path: &str, method: &str, token: usize) -> Value {
    Value::Record(vec![
        ("path".to_string(), sval(path)),
        ("method".to_string(), sval(method)),
        ("handler".to_string(), Value::Function { arity: 2, token }),
    ])
}

fn static_rec(path: &str, file_path: &str) -> Value {
    Value::Record(vec![
        ("path".to_string(), sval(path)),
        ("file_path".to_string(), sval(file_path)),
    ])
}

fn request(method: &str, url: &str, headers: Vec<(&str, &str)>, body: &str) -> RawRequest {
    RawRequest {
        method: method.to_string(),
        url: url.to_string(),
        headers: headers
            .into_iter()
            .map(|(k, v)| (k.to_string(), v.to_string()))
            .collect(),
        body: body.to_string(),
    }
}

#[test]
fn default_bind_address() {
    assert_eq!(bind_address(&Vec::new()), "0.0.0.0:8000");
    assert_eq!(bind_address(&vec![sval("127.0.0.1:9000")]), "127.0.0.1:9000");
    assert_eq!(bind_address(&vec![sval("a"), sval("b")]), "0.0.0.0:8000");
}

#[test]
fn settings_validation() {
    let ok = settings(vec![route("/x", "GET", 0)], vec![static_rec("/pub", "/srv/www")]);
    let (routes, statics) = compile_settings(&ok).unwrap();
    assert_eq!(routes.len(), 1);
    assert_eq!(statics.len(), 1);
    assert_eq!(statics[0], ("/pub".to_string(), "/srv/www".to_string()));

    let no_routes = Value::Record(vec![("store".to_string(), Value::Record(Vec::new()))]);
    assert_eq!(compile_settings(&no_routes).err(), Some(CompileError::MissingRoutes));

    let no_store = Value::Record(vec![("routes".to_string(), Value::Array(Vec::new()))]);
    assert_eq!(compile_settings(&no_store).err(), Some(CompileError::MissingStore));

    assert_eq!(compile_settings(&sval("nope")).err(), Some(CompileError::SettingsNotRecord));

    let bad_static = settings(vec![], vec![Value::Record(vec![("path".to_string(), sval("/p"))])]);
    assert_eq!(compile_settings(&bad_static).err(), Some(CompileError::MissingFilePath));
}

#[test]
fn static_root_gets_separator() {
    let st = make_static_serve("/pub".to_string(), "/srv/www".to_string());
    assert_eq!(st.file_path, "/srv/www/");
    let st = make_static_serve("/pub".to_string(), "/srv/www/".to_string());
    assert_eq!(st.file_path, "/srv/www/");
}

#[test]
fn static_prefix_resolution() {
    let maps = vec![
        make_static_serve("/assets".to_string(), "/srv/assets".to_string()),
        make_static_serve("/".to_string(), "/srv/www".to_string()),
    ];
    let (idx, fs) = resolve_static(&maps, "/assets/app.css").unwrap();
    assert_eq!(idx, 0);
    assert_eq!(fs, "/srv/assets//app.css");
    let (idx, fs) = resolve_static(&maps, "/index.html").unwrap();
    assert_eq!(idx, 1);
    assert_eq!(fs, "/srv/www/index.html");
    let none: Vec<StaticServe> = Vec::new();
    assert!(resolve_static(&none, "/x").is_none());
}

#[test]
fn guessed_content_type_comes_from_extension() {
    let headers = static_file_headers("/srv/www/index.html");
    assert_eq!(headers[0].0, "Content-Type");
    assert_eq!(headers[0].1, "text/html");
    assert_eq!(headers[1], ("Server".to_string(), "Adana".to_string()));
    let headers = static_file_headers("/srv/www/logo.png");
    assert_eq!(headers[0].1, "image/png");
    let headers = static_file_headers("/srv/www/no-extension");
    assert_eq!(headers[0].1, "text/plain");
}

#[test]
fn dispatch_matches_route_and_builds_request() {
    let (routes, strings) = compile_settings(&settings(
        vec![route("/users/:id", "GET", 9)],
        vec![static_rec("/pub", "/srv/www/")],
    ))
    .unwrap();
    let statics: Vec<StaticServe> = strings
        .into_iter()
        .map(|(p, f)| make_static_serve(p, f))
        .collect();
    let rq = request("GET", "/users/42?full=1", vec![], "");
    match route_request(&routes, &statics, &rq) {
        RouteOutcome::Handle { route_index, handler, request } => {
            assert_eq!(route_index, 0);
            assert_eq!(handler, 9);
            match request {
                Value::Record(entries) => {
                    match record_get(&entries, "params") {
                        Some(Value::Record(params)) => {
                            assert!(
                                matches!(record_get(params, "id"), Some(Value::Str(s)) if s == "42")
                            );
                        }
                        other => panic!("expected params record, got {other:?}"),
                    }
                }
                other => panic!("expected a request record, got {other:?}"),
            }
        }
        other => panic!("expected a handler match, got {other:?}"),
    }
}

#[test]
fn dispatch_falls_back_to_static_then_404() {
    let (routes, strings) = compile_settings(&settings(
        vec![route("/api", "GET", 0)],
        vec![static_rec("/pub", "/srv/www/")],
    ))
    .unwrap();
    let statics: Vec<StaticServe> = strings
        .into_iter()
        .map(|(p, f)| make_static_serve(p, f))
        .collect();

    match route_request(&routes, &statics, &request("GET", "/pub/site.css", vec![], "")) {
        RouteOutcome::ServeFile { fs_path } => assert_eq!(fs_path, "/srv/www//site.css"),
        other => panic!("expected a static hit, got {other:?}"),
    }
    assert!(matches!(
        route_request(&routes, &statics, &request("GET", "/nowhere", vec![], "")),
        RouteOutcome::NotFound
    ));
    assert!(matches!(
        route_request(&routes, &statics, &request("BREW", "/api", vec![], "")),
        RouteOutcome::NotFound
    ));
}

#[test]
fn dispatch_reports_bad_body_for_matched_route() {
    let (routes, _) = compile_settings(&settings(vec![route("/api", "POST", 0)], vec![])).unwrap();
    let rq = request(
        "POST",
        "/api",
        vec![("Content-Type", "application/json")],
        "{broken",
    );
    assert!(matches!(
        route_request(&routes, &Vec::new(), &rq),
        RouteOutcome::Fail(_)
    ));
}

#[test]
fn stop_errors_on_second_call() {
    let mut state = LifecycleState { stopped: false };
    assert_eq!(stop_transition(&mut state), Ok(()));
    assert_eq!(stop_transition(&mut state), Err(StopError::AlreadyStopped));
    assert_eq!(stop_transition(&mut state), Err(StopError::AlreadyStopped));
    assert_eq!(
        StopError::AlreadyStopped.message(),
        "server already stopped"
    );
}

#[test]
fn two_servers_stop_independently() {
    let mut first = LifecycleState { stopped: false };
    let mut second = LifecycleState { stopped: false };
    assert_eq!(stop_transition(&mut first), Ok(()));
    assert_eq!(stop_transition(&mut second), Ok(()));
    assert_eq!(stop_transition(&mut first), Err(StopError::AlreadyStopped));
    assert_eq!(stop_transition(&mut second), Err(StopError::AlreadyStopped));
}
