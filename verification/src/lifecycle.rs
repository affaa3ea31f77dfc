//! The server lifecycle and the dispatcher's per-connection decision.
//!
//! The host owns the socket, the background thread and the shutdown
//! channel; everything it decides with — which route answers, what to
//! hand the evaluator, when a stop is an error — is computed here.

use vstd::prelude::*;
use crate::decoder::DecodeError;
use crate::decoder::RawRequest;
use crate::decoder::build_request_record;
use crate::decoder::decode_fails;
use crate::decoder::request_record_ok;
use crate::matcher::capture_text;
use crate::matcher::opt_text_matches;
use crate::render::plain_of;
use crate::render::render_plain;
use crate::routes::CompileError;
use crate::routes::Route;
use crate::routes::RouteView;
use crate::routes::compile_routes;
use crate::routes::compile_route_spec;
use crate::routes::find_route;
use crate::routes::method_spec;
use crate::routes::parse_method;
use crate::routes::route_matches;
use crate::routes::route_views;
use crate::segment::tokenize_path;
use crate::segment::tokenize_spec;
use crate::statics::StaticServe;
use crate::statics::extract_static_strings;
use crate::statics::resolve_static;
use crate::statics::resolve_static_spec;
use crate::statics::static_strings_spec;
use crate::statics::static_views;
use crate::urlparse::request_path_of;
use crate::value::Value;
use crate::value::record_lookup;

verus! {

/// How long one poll for a connection may block, in milliseconds; this
/// bound is also the shutdown detection latency.
pub const POLL_TIMEOUT_MILLIS: u64 = 50;

/// The default bind address when the caller names none.
pub fn bind_address(params: &Vec<Value>) -> (r: String)
    ensures
        params@.len() == 1 ==> r@ == plain_of(params@[0]),
        params@.len() != 1 ==> r@ == "0.0.0.0:8000"@,
{
    if params.len() == 1 {
        render_plain(&params[0])
    } else {
        "0.0.0.0:8000".to_owned()
    }
}

/// What the settings record offers: its `routes` array and its
/// `static` array (empty when absent); a missing `routes` or `store`
/// fails, as does a settings value of the wrong shape.
pub open spec fn settings_spec(v: Value) -> Result<(Seq<Value>, Seq<Value>), CompileError> {
    match v {
        Value::Record(entries) => match record_lookup(entries@, "routes"@) {
            Some(Value::Array(routes)) => {
                let statics = match record_lookup(entries@, "static"@) {
                    Some(Value::Array(ss)) => ss@,
                    _ => Seq::empty(),
                };
                if record_lookup(entries@, "store"@) is None {
                    Err(CompileError::MissingStore)
                } else {
                    Ok((routes@, statics))
                }
            },
            _ => Err(CompileError::MissingRoutes),
        },
        _ => Err(CompileError::SettingsNotRecord),
    }
}

/// True when `e` is the first static-record violation in the list.
pub open spec fn first_static_err(ss: Seq<Value>, e: CompileError) -> bool {
    exists|k: int|
        {
            &&& 0 <= k < ss.len()
            &&& #[trigger] static_strings_spec(ss[k]) == Err::<
                (Seq<char>, Seq<char>),
                CompileError,
            >(e)
            &&& forall|j: int| 0 <= j < k ==> static_strings_spec(ss[j]) is Ok
        }
}

/// True when every static record in the list is valid.
pub open spec fn statics_all_ok(ss: Seq<Value>) -> bool {
    forall|i: int| 0 <= i < ss.len() ==> #[trigger] static_strings_spec(ss[i]) is Ok
}

/// True when `e` is the first route-record violation in the list.
pub open spec fn first_route_err(rs: Seq<Value>, e: CompileError) -> bool {
    exists|k: int|
        {
            &&& 0 <= k < rs.len()
            &&& #[trigger] compile_route_spec(rs[k]) == Err::<RouteView, CompileError>(e)
            &&& forall|j: int| 0 <= j < k ==> compile_route_spec(rs[j]) is Ok
        }
}

/// A first static-record violation at `i` is a violation of the list.
proof fn lemma_static_err_witness(ss: Seq<Value>, i: int, e: CompileError)
    requires
        0 <= i < ss.len(),
        static_strings_spec(ss[i]) == Err::<(Seq<char>, Seq<char>), CompileError>(e),
        forall|j: int| 0 <= j < i ==> static_strings_spec(ss[j]) is Ok,
    ensures
        first_static_err(ss, e),
{
}

/// Compiles a settings record into the route table and the validated
/// static mappings' strings (their roots still unresolved — resolving
/// them touches the filesystem, which is the host's part). Static
/// records are checked before routes, and the first violation wins; no
/// partial configuration ever leaves this function.
#[verifier::rlimit(100)]
#[verifier::spinoff_prover]
#[verifier::loop_isolation(false)]
pub fn compile_settings(v: &Value) -> (r: Result<(Vec<Route>, Vec<(String, String)>), CompileError>)
    ensures
        match r {
            Ok(compiled) => {
                &&& settings_spec(*v) matches Ok(raw)
                &&& compiled.0@.len() == raw.0.len()
                &&& forall|i: int|
                    0 <= i < raw.0.len() ==> compile_route_spec(raw.0[i]) == Ok::<
                        RouteView,
                        CompileError,
                    >(#[trigger] compiled.0@[i]@)
                &&& compiled.1@.len() == raw.1.len()
                &&& forall|i: int|
                    0 <= i < raw.1.len() ==> static_strings_spec(raw.1[i]) == Ok::<
                        (Seq<char>, Seq<char>),
                        CompileError,
                    >((#[trigger] compiled.1@[i].0@, compiled.1@[i].1@))
            },
            Err(e) => {
                ||| settings_spec(*v) == Err::<(Seq<Value>, Seq<Value>), CompileError>(e)
                ||| (settings_spec(*v) matches Ok(raw) && first_static_err(raw.1, e))
                ||| (settings_spec(*v) matches Ok(raw) && statics_all_ok(raw.1) && first_route_err(
                    raw.0,
                    e,
                ))
            },
        },
{
    let entries = match v {
        Value::Record(entries) => entries,
        _ => {
            return Err(CompileError::SettingsNotRecord);
        },
    };
    let routes_raw = match crate::value::record_get(entries, "routes") {
        Some(Value::Array(routes)) => routes,
        _ => {
            return Err(CompileError::MissingRoutes);
        },
    };
    let empty: Vec<Value> = Vec::new();
    let statics_raw: &Vec<Value> = match crate::value::record_get(entries, "static") {
        Some(Value::Array(ss)) => ss,
        _ => &empty,
    };
    proof {
        assert(empty@ =~= Seq::<Value>::empty());
    }
    if crate::value::record_get(entries, "store").is_none() {
        return Err(CompileError::MissingStore);
    }
    proof {
        assert(settings_spec(*v) == Ok::<(Seq<Value>, Seq<Value>), CompileError>(
            (routes_raw@, statics_raw@),
        ));
    }
    let mut static_strings: Vec<(String, String)> = Vec::new();
    let n = statics_raw.len();
    for i in 0..n
        invariant
            n == statics_raw@.len(),
            static_strings@.len() == i,
            forall|j: int|
                0 <= j < i ==> static_strings_spec(statics_raw@[j]) == Ok::<
                    (Seq<char>, Seq<char>),
                    CompileError,
                >((#[trigger] static_strings@[j].0@, static_strings@[j].1@)),
    {
        match extract_static_strings(&statics_raw[i]) {
            Ok(pair) => {
                static_strings.push(pair);
            },
            Err(e) => {
                proof {
                    assert(static_strings_spec(statics_raw@[i as int]) == Err::<
                        (Seq<char>, Seq<char>),
                        CompileError,
                    >(e));
                    assert forall|j: int| 0 <= j < i implies static_strings_spec(
                        statics_raw@[j],
                    ) is Ok by {
                        assert(static_strings_spec(statics_raw@[j]) == Ok::<
                            (Seq<char>, Seq<char>),
                            CompileError,
                        >((static_strings@[j].0@, static_strings@[j].1@)));
                    }
                }
                proof {
                    lemma_static_err_witness(statics_raw@, i as int, e);
                    assert(settings_spec(*v)->Ok_0.1 == statics_raw@);
                    assert(first_static_err(settings_spec(*v)->Ok_0.1, e));
                }
                return Err(e);
            },
        }
    }
    let routes = match compile_routes(routes_raw) {
        Ok(routes) => routes,
        Err(e) => {
            proof {
                assert forall|j: int| 0 <= j < n implies #[trigger] static_strings_spec(
                    statics_raw@[j],
                ) is Ok by {
                    assert(static_strings_spec(statics_raw@[j]) == Ok::<
                        (Seq<char>, Seq<char>),
                        CompileError,
                    >((static_strings@[j].0@, static_strings@[j].1@)));
                }
                assert(settings_spec(*v)->Ok_0.1 == statics_raw@);
                assert(settings_spec(*v)->Ok_0.0 == routes_raw@);
                assert(statics_all_ok(settings_spec(*v)->Ok_0.1));
                assert(first_route_err(settings_spec(*v)->Ok_0.0, e));
            }
            return Err(e);
        },
    };
    Ok((routes, static_strings))
}

/// What the dispatcher does with one connection.
#[derive(Debug)]
pub enum RouteOutcome {
    /// A route matched: call its handler with the decoded request
    /// record (and the shared store) and encode what comes back.
    Handle { route_index: usize, handler: usize, request: Value },
    /// No route matched but a static mapping did: serve the file at
    /// `fs_path`, or answer 404 when it is absent.
    ServeFile { fs_path: String },
    /// Neither a route nor a static mapping answers: 404.
    NotFound,
    /// A route matched but its body failed to decode; this request
    /// alone fails.
    Fail(DecodeError),
}

/// Resolves one wire request against the compiled configuration: the
/// first route whose verb and segments match wins; otherwise the first
/// static mapping whose prefix the path carries; otherwise nothing.
#[verifier::rlimit(100)]
#[verifier::spinoff_prover]
pub fn route_request(routes: &Vec<Route>, statics: &Vec<StaticServe>, raw: &RawRequest) -> (r:
    RouteOutcome)
    ensures
        ({
            let toks = tokenize_spec(request_path_of(raw.url@));
            let m = method_spec(raw.method@);
            match r {
                RouteOutcome::Handle { route_index, handler, request } => {
                    &&& m matches Some(mm)
                    &&& route_index < routes@.len()
                    &&& route_matches(routes@[route_index as int]@, m->0, toks)
                    &&& forall|j: int|
                        0 <= j < route_index ==> !route_matches(
                            #[trigger] routes@[j]@,
                            m->0,
                            toks,
                        )
                    &&& handler as int == routes@[route_index as int]@.handler
                    &&& request matches Value::Record(entries) && record_lookup(
                        entries@,
                        "params"@,
                    ) matches Some(Value::Record(ps)) && request_record_ok(entries@, raw@, ps@)
                        && (forall|name: Seq<char>|
                        opt_text_matches(
                            #[trigger] record_lookup(ps@, name),
                            capture_text(toks, routes@[route_index as int]@.segments, name),
                        ))
                },
                RouteOutcome::Fail(e) => {
                    &&& m is Some
                    &&& exists|i: int|
                        0 <= i < routes@.len() && route_matches(
                            #[trigger] routes@[i]@,
                            m->0,
                            toks,
                        )
                    &&& decode_fails(raw@, e)
                },
                RouteOutcome::ServeFile { fs_path } => {
                    &&& (m is None || forall|j: int|
                        0 <= j < routes@.len() ==> !route_matches(
                            #[trigger] routes@[j]@,
                            m->0,
                            toks,
                        ))
                    &&& resolve_static_spec(static_views(statics@), request_path_of(raw.url@))
                        matches Some(hit) && hit.1 == fs_path@
                },
                RouteOutcome::NotFound => {
                    &&& (m is None || forall|j: int|
                        0 <= j < routes@.len() ==> !route_matches(
                            #[trigger] routes@[j]@,
                            m->0,
                            toks,
                        ))
                    &&& resolve_static_spec(static_views(statics@), request_path_of(raw.url@))
                        is None
                },
            }
        }),
{
    let path = crate::urlparse::extract_request_path(raw.url.as_str());
    let toks = tokenize_path(path.as_str());
    proof {
        assert(path@ == request_path_of(raw.url@));
        assert(crate::segment::seg_views(toks@) == tokenize_spec(request_path_of(raw.url@)));
    }
    let m_opt = parse_method(raw.method.as_str());
    let matched = match m_opt {
        Some(m) => find_route(routes, m, &toks),
        None => None,
    };
    proof {
        if m_opt is None {
            assert(method_spec(raw.method@) is None);
        }
    }
    match matched {
        Some((idx, params)) => {
            let handler = routes[idx].handler;
            let ghost params_v = params@;
            proof {
                let tokv = tokenize_spec(request_path_of(raw.url@));
                assert(route_matches(routes@[idx as int]@, m_opt->0, tokv));
                assert(forall|name: Seq<char>|
                    opt_text_matches(
                        #[trigger] record_lookup(params_v, name),
                        capture_text(tokv, routes@[idx as int]@.segments, name),
                    ));
            }
            match build_request_record(raw, params) {
                Ok(entries) => {
                    proof {
                        assert(request_record_ok(entries@, raw@, params_v));
                        assert(record_lookup(entries@, "params"@) matches Some(Value::Record(ps))
                            && ps@ == params_v);
                    }
                    RouteOutcome::Handle { route_index: idx, handler, request: Value::Record(entries) }
                },
                Err(e) => RouteOutcome::Fail(e),
            }
        },
        None => {
            proof {
                let tokv = tokenize_spec(request_path_of(raw.url@));
                let m = method_spec(raw.method@);
                assert(m is None || forall|j: int|
                    0 <= j < routes@.len() ==> !route_matches(#[trigger] routes@[j]@, m->0, tokv));
            }
            match resolve_static(statics, path.as_str()) {
                Some((_, fs_path)) => RouteOutcome::ServeFile { fs_path },
                None => RouteOutcome::NotFound,
            }
        },
    }
}

/// Why a stop request failed.
#[derive(Clone, Copy, PartialEq, Eq, Structural, Debug)]
pub enum StopError {
    /// The handle was stopped before.
    AlreadyStopped,
}

impl StopError {
    /// A descriptive message for the failure.
    pub fn message(&self) -> String {
        match self {
            StopError::AlreadyStopped => "server already stopped".to_owned(),
        }
    }
}

/// The lifecycle of one dispatch handle: it starts running and can be
/// stopped exactly once. Two handles are two values, each with its own
/// state, so stopping one never touches the other.
pub struct LifecycleState {
    pub stopped: bool,
}

/// What a stop request returns against a handle's state.
pub open spec fn stop_spec(stopped: bool) -> Result<(), StopError> {
    if stopped {
        Err(StopError::AlreadyStopped)
    } else {
        Ok(())
    }
}

/// Consumes a stop request: the first succeeds, every later one
/// returns the explicit error — never a crash — and the handle is
/// stopped afterwards either way.
pub fn stop_transition(state: &mut LifecycleState) -> (r: Result<(), StopError>)
    ensures
        r == stop_spec(old(state).stopped),
        final(state).stopped,
{
    if state.stopped {
        Err(StopError::AlreadyStopped)
    } else {
        state.stopped = true;
        Ok(())
    }
}

/// Stopping twice: whatever the first stop returned, the handle is
/// stopped afterwards, so the second stop returns the explicit
/// already-stopped error rather than crashing.
pub proof fn lemma_second_stop_errors(first_stopped: bool)
    ensures
        !first_stopped ==> stop_spec(first_stopped) is Ok,
        stop_spec(true) == Err::<(), StopError>(StopError::AlreadyStopped),
{
}

} // verus!
