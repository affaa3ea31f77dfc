//! Compiling declarative route, middleware and static records into
//! validated in-memory entries, and resolving a request against the
//! compiled routes.

use vstd::prelude::*;
use crate::matcher::capture_text;
use crate::matcher::match_segments;
use crate::matcher::opt_text_matches;
use crate::matcher::segments_match;
use crate::segment::PathSegment;
use crate::segment::SegView;
use crate::segment::seg_views;
use crate::segment::split_from;
use crate::text::str_eq;
use crate::value::Value;
use crate::value::record_keys_unique;
use crate::value::record_lookup;
use vstd::string::StrSliceExecFns;

verus! {

/// A known HTTP verb. Anything else fails route compilation.
#[derive(Clone, Copy, PartialEq, Eq, Structural, Debug)]
pub enum Method {
    Get,
    Post,
    Put,
    Delete,
    Head,
    Options,
    Patch,
    Trace,
    Connect,
}

/// The verb named by `s`, spelled exactly as on the wire.
pub open spec fn method_spec(s: Seq<char>) -> Option<Method> {
    if s == "GET"@ {
        Some(Method::Get)
    } else if s == "POST"@ {
        Some(Method::Post)
    } else if s == "PUT"@ {
        Some(Method::Put)
    } else if s == "DELETE"@ {
        Some(Method::Delete)
    } else if s == "HEAD"@ {
        Some(Method::Head)
    } else if s == "OPTIONS"@ {
        Some(Method::Options)
    } else if s == "PATCH"@ {
        Some(Method::Patch)
    } else if s == "TRACE"@ {
        Some(Method::Trace)
    } else if s == "CONNECT"@ {
        Some(Method::Connect)
    } else {
        None
    }
}

/// Parses a method string into a known verb.
pub fn parse_method(s: &str) -> (r: Option<Method>)
    ensures
        r == method_spec(s@),
{
    if str_eq(s, "GET") {
        Some(Method::Get)
    } else if str_eq(s, "POST") {
        Some(Method::Post)
    } else if str_eq(s, "PUT") {
        Some(Method::Put)
    } else if str_eq(s, "DELETE") {
        Some(Method::Delete)
    } else if str_eq(s, "HEAD") {
        Some(Method::Head)
    } else if str_eq(s, "OPTIONS") {
        Some(Method::Options)
    } else if str_eq(s, "PATCH") {
        Some(Method::Patch)
    } else if str_eq(s, "TRACE") {
        Some(Method::Trace)
    } else if str_eq(s, "CONNECT") {
        Some(Method::Connect)
    } else {
        None
    }
}

/// Why compiling a route, middleware or static record failed.
#[derive(Clone, Copy, PartialEq, Eq, Structural, Debug)]
pub enum CompileError {
    /// The record was not a record value at all.
    NotARecord,
    /// The record has no `path` string.
    MissingPath,
    /// The path does not start with `/`.
    PathNotAbsolute,
    /// The record has no `handler` callable.
    MissingHandler,
    /// The handler does not take exactly two parameters.
    WrongHandlerArity,
    /// The middleware handler does not take exactly one parameter.
    WrongMiddlewareArity,
    /// The record has no `method` string.
    MissingMethod,
    /// The method string is no known HTTP verb.
    UnknownMethod,
    /// The static record has no `file_path` string.
    MissingFilePath,
    /// The settings value is not a record.
    SettingsNotRecord,
    /// The settings record has no `routes` array.
    MissingRoutes,
    /// The settings record has no `store`.
    MissingStore,
}

impl CompileError {
    /// A descriptive message for the failure.
    pub fn message(&self) -> String {
        match self {
            CompileError::NotARecord => "invalid route".to_owned(),
            CompileError::MissingPath => "missing path param in route".to_owned(),
            CompileError::PathNotAbsolute => "path of route must start with /".to_owned(),
            CompileError::MissingHandler => "missing handler param in route".to_owned(),
            CompileError::WrongHandlerArity => "route must have exactly two parameters (req, store)".to_owned(),
            CompileError::WrongMiddlewareArity => "middleware must have exactly one parameter (req)".to_owned(),
            CompileError::MissingMethod => "missing method".to_owned(),
            CompileError::UnknownMethod => "bad method".to_owned(),
            CompileError::MissingFilePath => "missing file_path in static".to_owned(),
            CompileError::SettingsNotRecord => "settings must be a record (e.g struct {static: [], routes: []})".to_owned(),
            CompileError::MissingRoutes => "missing routes in settings".to_owned(),
            CompileError::MissingStore => "missing store struct in settings".to_owned(),
        }
    }
}

/// The segment a nonempty path piece at index `i` compiles to: a
/// variable when it is prefixed with `:`, else a literal.
pub open spec fn piece_seg(t: Seq<char>, i: int) -> SegView {
    if t.len() > 0 && t[0] == ':' {
        SegView::Variable { position: i, name: t.drop_first() }
    } else {
        SegView::Literal(t)
    }
}

/// The segments of a route path that starts with `/`: `/` alone is the
/// root segment; otherwise each nonempty `/`-separated piece compiles
/// by [`piece_seg`].
pub open spec fn route_segments_spec(path: Seq<char>) -> Seq<SegView> {
    if path.len() == 1 {
        seq![SegView::Root]
    } else {
        let pieces = split_from(path, '/', 0);
        Seq::new(pieces.len(), |i: int| piece_seg(pieces[i], i))
    }
}

/// Parses a route path pattern into segments; the path must start
/// with `/`.
pub fn parse_route_path(path: &str) -> (r: Result<Vec<PathSegment>, CompileError>)
    ensures
        path@.len() > 0 && path@[0] == '/' ==> (r matches Ok(segs) && seg_views(segs@)
            == route_segments_spec(path@)),
        path@.len() == 0 || path@[0] != '/' ==> r == Err::<Vec<PathSegment>, CompileError>(
            CompileError::PathNotAbsolute,
        ),
{
    let n = path.unicode_len();
    if n == 0 || path.get_char(0) != '/' {
        return Err(CompileError::PathNotAbsolute);
    }
    if n == 1 {
        let mut segs: Vec<PathSegment> = Vec::new();
        segs.push(PathSegment::Root);
        proof {
            assert(seg_views(segs@) =~= seq![SegView::Root]);
        }
        return Ok(segs);
    }
    let pieces = crate::segment::split_nonempty(path, '/');
    let ghost piece_views = split_from(path@, '/', 0);
    let mut segs: Vec<PathSegment> = Vec::new();
    let count = pieces.len();
    for k in 0..count
        invariant
            count == pieces@.len(),
            crate::segment::str_views(pieces@) == piece_views,
            piece_views == split_from(path@, '/', 0),
            path@.len() > 1,
            seg_views(segs@) =~= Seq::new(k as nat, |i: int| piece_seg(piece_views[i], i)),
    {
        let ghost segs_before = segs@;
        let piece = &pieces[k];
        proof {
            assert(piece_views[k as int] == pieces@[k as int]@);
        }
        let plen = piece.as_str().unicode_len();
        if plen > 0 && piece.as_str().get_char(0) == ':' {
            let name = piece.as_str().substring_char(1, plen).to_owned();
            proof {
                assert(name@ =~= piece@.drop_first());
            }
            segs.push(PathSegment::Variable { position: k, name });
        } else {
            segs.push(PathSegment::Literal(piece.clone()));
        }
        proof {
            assert(seg_views(segs@) =~= seg_views(segs_before).push(segs@.last()@));
            assert(segs@.last()@ == piece_seg(piece_views[k as int], k as int));
            assert(seg_views(segs@) =~= Seq::new((k + 1) as nat, |i: int| piece_seg(piece_views[i], i)));
        }
    }
    proof {
        assert(seg_views(segs@) =~= route_segments_spec(path@));
    }
    Ok(segs)
}

/// A compiled route: its segment pattern, its verb, and the host's
/// token for the two-parameter handler callable.
pub struct Route {
    pub segments: Vec<PathSegment>,
    pub method: Method,
    pub handler: usize,
}

/// The mathematical shape of a [`Route`].
pub struct RouteView {
    pub segments: Seq<SegView>,
    pub method: Method,
    pub handler: int,
}

impl View for Route {
    type V = RouteView;

    open spec fn view(&self) -> RouteView {
        RouteView {
            segments: seg_views(self.segments@),
            method: self.method,
            handler: self.handler as int,
        }
    }
}

/// What one declarative route record compiles to: the checks run in
/// order — the record shape, the `path` string, its leading `/`, the
/// `handler` callable, its two-parameter arity, the `method` string,
/// and the verb it names — and the first violation is the error.
pub open spec fn compile_route_spec(v: Value) -> Result<RouteView, CompileError> {
    match v {
        Value::Record(entries) => match record_lookup(entries@, "path"@) {
            Some(Value::Str(p)) => if p@.len() == 0 || p@[0] != '/' {
                Err(CompileError::PathNotAbsolute)
            } else {
                match record_lookup(entries@, "handler"@) {
                    Some(Value::Function { arity, token }) => if arity != 2 {
                        Err(CompileError::WrongHandlerArity)
                    } else {
                        match record_lookup(entries@, "method"@) {
                            Some(Value::Str(m)) => match method_spec(m@) {
                                Some(meth) => Ok(
                                    RouteView {
                                        segments: route_segments_spec(p@),
                                        method: meth,
                                        handler: token as int,
                                    },
                                ),
                                None => Err(CompileError::UnknownMethod),
                            },
                            _ => Err(CompileError::MissingMethod),
                        }
                    },
                    _ => Err(CompileError::MissingHandler),
                }
            },
            _ => Err(CompileError::MissingPath),
        },
        _ => Err(CompileError::NotARecord),
    }
}

/// Compiles one route record.
pub fn compile_route(v: &Value) -> (r: Result<Route, CompileError>)
    ensures
        match r {
            Ok(route) => compile_route_spec(*v) == Ok::<RouteView, CompileError>(route@),
            Err(e) => compile_route_spec(*v) == Err::<RouteView, CompileError>(e),
        },
{
    let entries = match v {
        Value::Record(entries) => entries,
        _ => {
            return Err(CompileError::NotARecord);
        },
    };
    let path = match crate::value::record_get(entries, "path") {
        Some(Value::Str(p)) => p,
        _ => {
            return Err(CompileError::MissingPath);
        },
    };
    let segments = match parse_route_path(path.as_str()) {
        Ok(segs) => segs,
        Err(e) => {
            return Err(e);
        },
    };
    let (arity, token) = match crate::value::record_get(entries, "handler") {
        Some(Value::Function { arity, token }) => (*arity, *token),
        _ => {
            return Err(CompileError::MissingHandler);
        },
    };
    if arity != 2 {
        return Err(CompileError::WrongHandlerArity);
    }
    let method_name = match crate::value::record_get(entries, "method") {
        Some(Value::Str(m)) => m,
        _ => {
            return Err(CompileError::MissingMethod);
        },
    };
    let method = match parse_method(method_name.as_str()) {
        Some(m) => m,
        None => {
            return Err(CompileError::UnknownMethod);
        },
    };
    Ok(Route { segments, method, handler: token })
}

/// The route views of a compiled route list.
pub open spec fn route_views(rs: Seq<Route>) -> Seq<RouteView> {
    rs.map_values(|r: Route| r@)
}

/// Compiles every route record, in order, stopping at the first
/// violation; no partial route table ever leaves this function.
pub fn compile_routes(vs: &Vec<Value>) -> (r: Result<Vec<Route>, CompileError>)
    ensures
        match r {
            Ok(routes) => {
                &&& routes@.len() == vs@.len()
                &&& forall|i: int|
                    0 <= i < vs@.len() ==> compile_route_spec(vs@[i]) == Ok::<
                        RouteView,
                        CompileError,
                    >(#[trigger] routes@[i]@)
            },
            Err(e) => exists|i: int|
                {
                    &&& 0 <= i < vs@.len()
                    &&& #[trigger] compile_route_spec(vs@[i]) == Err::<RouteView, CompileError>(e)
                    &&& forall|j: int| 0 <= j < i ==> compile_route_spec(vs@[j]) is Ok
                },
        },
{
    let mut routes: Vec<Route> = Vec::new();
    let n = vs.len();
    for i in 0..n
        invariant
            n == vs@.len(),
            routes@.len() == i,
            forall|j: int|
                0 <= j < i ==> compile_route_spec(vs@[j]) == Ok::<RouteView, CompileError>(
                    #[trigger] routes@[j]@,
                ),
    {
        match compile_route(&vs[i]) {
            Ok(route) => {
                routes.push(route);
            },
            Err(e) => {
                proof {
                    assert(compile_route_spec(vs@[i as int]) == Err::<RouteView, CompileError>(e));
                    assert forall|j: int| 0 <= j < i implies compile_route_spec(vs@[j]) is Ok by {
                        assert(compile_route_spec(vs@[j]) == Ok::<RouteView, CompileError>(
                            routes@[j]@,
                        ));
                    }
                }
                return Err(e);
            },
        }
    }
    Ok(routes)
}

/// A compiled middleware: a segment pattern and the host's token for
/// the one-parameter handler callable.
pub struct Middleware {
    pub segments: Vec<PathSegment>,
    pub handler: usize,
}

/// The mathematical shape of a [`Middleware`].
pub struct MiddlewareView {
    pub segments: Seq<SegView>,
    pub handler: int,
}

impl View for Middleware {
    type V = MiddlewareView;

    open spec fn view(&self) -> MiddlewareView {
        MiddlewareView { segments: seg_views(self.segments@), handler: self.handler as int }
    }
}

/// What one middleware record compiles to: like a route, but with a
/// one-parameter handler and no method.
pub open spec fn compile_middleware_spec(v: Value) -> Result<MiddlewareView, CompileError> {
    match v {
        Value::Record(entries) => match record_lookup(entries@, "path"@) {
            Some(Value::Str(p)) => if p@.len() == 0 || p@[0] != '/' {
                Err(CompileError::PathNotAbsolute)
            } else {
                match record_lookup(entries@, "handler"@) {
                    Some(Value::Function { arity, token }) => if arity != 1 {
                        Err(CompileError::WrongMiddlewareArity)
                    } else {
                        Ok(
                            MiddlewareView {
                                segments: route_segments_spec(p@),
                                handler: token as int,
                            },
                        )
                    },
                    _ => Err(CompileError::MissingHandler),
                }
            },
            _ => Err(CompileError::MissingPath),
        },
        _ => Err(CompileError::NotARecord),
    }
}

/// Compiles one middleware record.
pub fn compile_middleware(v: &Value) -> (r: Result<Middleware, CompileError>)
    ensures
        match r {
            Ok(mw) => compile_middleware_spec(*v) == Ok::<MiddlewareView, CompileError>(mw@),
            Err(e) => compile_middleware_spec(*v) == Err::<MiddlewareView, CompileError>(e),
        },
{
    let entries = match v {
        Value::Record(entries) => entries,
        _ => {
            return Err(CompileError::NotARecord);
        },
    };
    let path = match crate::value::record_get(entries, "path") {
        Some(Value::Str(p)) => p,
        _ => {
            return Err(CompileError::MissingPath);
        },
    };
    let segments = match parse_route_path(path.as_str()) {
        Ok(segs) => segs,
        Err(e) => {
            return Err(e);
        },
    };
    let (arity, token) = match crate::value::record_get(entries, "handler") {
        Some(Value::Function { arity, token }) => (*arity, *token),
        _ => {
            return Err(CompileError::MissingHandler);
        },
    };
    if arity != 1 {
        return Err(CompileError::WrongMiddlewareArity);
    }
    Ok(Middleware { segments, handler: token })
}

/// Compiles every middleware record, in order, stopping at the first
/// violation.
pub fn compile_middlewares(vs: &Vec<Value>) -> (r: Result<Vec<Middleware>, CompileError>)
    ensures
        match r {
            Ok(mws) => {
                &&& mws@.len() == vs@.len()
                &&& forall|i: int|
                    0 <= i < vs@.len() ==> compile_middleware_spec(vs@[i]) == Ok::<
                        MiddlewareView,
                        CompileError,
                    >(#[trigger] mws@[i]@)
            },
            Err(e) => exists|i: int|
                {
                    &&& 0 <= i < vs@.len()
                    &&& #[trigger] compile_middleware_spec(vs@[i]) == Err::<
                        MiddlewareView,
                        CompileError,
                    >(e)
                    &&& forall|j: int| 0 <= j < i ==> compile_middleware_spec(vs@[j]) is Ok
                },
        },
{
    let mut mws: Vec<Middleware> = Vec::new();
    let n = vs.len();
    for i in 0..n
        invariant
            n == vs@.len(),
            mws@.len() == i,
            forall|j: int|
                0 <= j < i ==> compile_middleware_spec(vs@[j]) == Ok::<MiddlewareView, CompileError>(
                    #[trigger] mws@[j]@,
                ),
    {
        match compile_middleware(&vs[i]) {
            Ok(mw) => {
                mws.push(mw);
            },
            Err(e) => {
                proof {
                    assert(compile_middleware_spec(vs@[i as int]) == Err::<
                        MiddlewareView,
                        CompileError,
                    >(e));
                    assert forall|j: int| 0 <= j < i implies compile_middleware_spec(vs@[j]) is Ok
                        by {
                        assert(compile_middleware_spec(vs@[j]) == Ok::<MiddlewareView, CompileError>(
                            mws@[j]@,
                        ));
                    }
                }
                return Err(e);
            },
        }
    }
    Ok(mws)
}

/// True when the request's verb equals the route's and its tokens match
/// the route's segments.
pub open spec fn route_matches(rv: RouteView, method: Method, toks: Seq<SegView>) -> bool {
    rv.method == method && segments_match(toks, rv.segments)
}

/// Resolves a request against the routes in declaration order: the
/// first route whose verb and segments both match wins, together with
/// its captured path variables; `None` when no route matches.
pub fn find_route(routes: &Vec<Route>, method: Method, toks: &Vec<PathSegment>) -> (r: Option<
    (usize, Vec<(String, Value)>),
>)
    ensures
        match r {
            Some((idx, params)) => {
                &&& idx < routes@.len()
                &&& route_matches(routes@[idx as int]@, method, seg_views(toks@))
                &&& forall|j: int|
                    0 <= j < idx ==> !route_matches(#[trigger] routes@[j]@, method, seg_views(toks@))
                &&& forall|name: Seq<char>|
                    opt_text_matches(
                        #[trigger] record_lookup(params@, name),
                        capture_text(seg_views(toks@), routes@[idx as int]@.segments, name),
                    )
                &&& record_keys_unique(params@)
            },
            None => forall|j: int|
                0 <= j < routes@.len() ==> !route_matches(
                    #[trigger] routes@[j]@,
                    method,
                    seg_views(toks@),
                ),
        },
{
    let n = routes.len();
    for i in 0..n
        invariant
            n == routes@.len(),
            forall|j: int|
                0 <= j < i ==> !route_matches(#[trigger] routes@[j]@, method, seg_views(toks@)),
    {
        let route = &routes[i];
        if route.method == method {
            match match_segments(toks, &route.segments) {
                Some(params) => {
                    return Some((i, params));
                },
                None => {},
            }
        }
    }
    None
}

/// Of two routes with the same segment shape and different verbs, a
/// request matches at most the one whose verb equals its own; never
/// both.
pub proof fn lemma_method_selects(r1: RouteView, r2: RouteView, method: Method, toks: Seq<SegView>)
    requires
        r1.segments == r2.segments,
        r1.method != r2.method,
    ensures
        !(route_matches(r1, method, toks) && route_matches(r2, method, toks)),
        route_matches(r1, method, toks) ==> method == r1.method,
        route_matches(r2, method, toks) ==> method == r2.method,
{
}

} // verus!
