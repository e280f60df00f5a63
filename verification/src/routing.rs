//! Route requests to the appropriate handler.
//!
//! A [Router] is a chain of routes, the one added last tried first. Each route matches the
//! request path against a [PathDescription]; a matching route either picks the handler for the
//! request method ([MethodRouter]), or passes the request on to a service or to a nested router.
//! Handlers and services are named by the numbers their owner gave them.
use vstd::prelude::*;

use crate::request::{next_slash, Path};
use crate::status::StatusCode;
use crate::text::{push_str, text_equals};
use crate::url_encoded::{
    decode_bounded, is_plain, lemma_strip_plain_prefix, strip_prefix_spec, BoundedDecode,
    StripOutcome,
};

verus! {

/// The number of bytes a captured path segment may take once decoded.
pub const PATH_PARAMETER_CAPACITY: usize = 128;

/// One element of a [PathDescription].
#[derive(Clone)]
pub enum PathSegment {
    /// A literal which the path is matched against, such as `/foo` or `/foo/bar`.
    Literal(String),
    /// A single segment, captured and decoded as a path parameter.
    Parameter,
}

/// Capture a single path segment as a path parameter.
pub fn parse_path_segment() -> (r: PathSegment)
    ensures
        r is Parameter,
{
    PathSegment::Parameter
}

/// A description of a path: its elements, matched one after another.
#[derive(Clone)]
pub struct PathDescription {
    /// The elements, in the order they are matched.
    pub segments: Vec<PathSegment>,
}

/// The texts of a list of strings.
pub open spec fn texts(v: Seq<String>) -> Seq<Seq<char>> {
    v.map_values(|s: String| s@)
}

/// The outcome of matching a path description, or one element of it, against the front of
/// a path.
pub enum PathMatch {
    /// It matched: the captured parameters and the rest of the path.
    Matched(Seq<Seq<char>>, Seq<char>),
    /// It did not match.
    NoMatch,
}

/// Matching one element against the front of the encoded `path`.
pub open spec fn match_segment(segment: PathSegment, path: Seq<char>) -> PathMatch {
    match segment {
        PathSegment::Literal(p) => match strip_prefix_spec(path, p@) {
            StripOutcome::Stripped(rest) => PathMatch::Matched(Seq::<Seq<char>>::empty(), rest),
            StripOutcome::NoMatch => PathMatch::NoMatch,
        },
        PathSegment::Parameter => if path.len() > 0 && path[0] == '/' {
            let k = next_slash(path, 1);
            match decode_bounded(path.subrange(1, k), PATH_PARAMETER_CAPACITY as nat, 0) {
                BoundedDecode::Decoded(d) => PathMatch::Matched(seq![d], path.skip(k)),
                BoundedDecode::Failed(_) => PathMatch::NoMatch,
            }
        } else {
            PathMatch::NoMatch
        },
    }
}

/// `m` with the parameters `acc` captured before it.
pub open spec fn after_captured(acc: Seq<Seq<char>>, m: PathMatch) -> PathMatch {
    match m {
        PathMatch::Matched(ps, r) => PathMatch::Matched(acc + ps, r),
        other => other,
    }
}

/// Matching `segments`, one after another, against the front of the encoded `path`.
pub open spec fn match_segments(segments: Seq<PathSegment>, path: Seq<char>) -> PathMatch
    decreases segments.len(),
{
    if segments.len() == 0 {
        PathMatch::Matched(Seq::empty(), path)
    } else {
        match match_segment(segments[0], path) {
            PathMatch::Matched(captured, rest) => after_captured(
                captured,
                match_segments(segments.drop_first(), rest),
            ),
            other => other,
        }
    }
}

proof fn lemma_next_slash_bounds(s: Seq<char>, i: int)
    requires
        0 <= i <= s.len(),
    ensures
        i <= next_slash(s, i) <= s.len(),
    decreases s.len() - i,
{
    if i < s.len() && s[i] != '/' {
        lemma_next_slash_bounds(s, i + 1);
    }
}

fn match_one(segment: &PathSegment, path: Path) -> (r: Option<(Vec<String>, Path)>)
    ensures
        match match_segment(*segment, path.text()) {
            PathMatch::Matched(captured, rest) => r matches Some((v, p)) && texts(v@) == captured
                && p.text() == rest,
            _ => r is None,
        },
{
    let ghost t = path.text();
    match segment {
        PathSegment::Literal(p) => {
            match path.strip_prefix(p.as_str()) {
                Some(rest) => {
                    let v: Vec<String> = Vec::new();
                    assert(texts(v@) =~= Seq::<Seq<char>>::empty());
                    Some((v, rest))
                },
                None => None,
            }
        },
        PathSegment::Parameter => {
            match path.split_first_segment() {
                None => None,
                Some((segment_text, rest)) => {
                    proof {
                        lemma_next_slash_bounds(t, 1);
                    }
                    match segment_text.try_into_string(PATH_PARAMETER_CAPACITY) {
                        Ok(text) => {
                            let mut v: Vec<String> = Vec::new();
                            v.push(text);
                            assert(texts(v@) =~= seq![text@]);
                            Some((v, rest))
                        },
                        Err(_) => None,
                    }
                },
            }
        },
    }
}

fn match_description(segments: &Vec<PathSegment>, path: Path) -> (r: Option<(Vec<String>, Path)>)
    ensures
        match match_segments(segments@, path.text()) {
            PathMatch::Matched(ps, rest) => r matches Some((v, p)) && texts(v@) == ps && p.text()
                == rest,
            _ => r is None,
        },
{
    let ghost whole = path.text();
    let mut captured: Vec<String> = Vec::new();
    let mut current = path;
    let mut i: usize = 0;
    assert(segments@.skip(0) =~= segments@);
    assert(after_captured(texts(captured@), match_segments(segments@, whole)) == match_segments(
        segments@,
        whole,
    )) by {
        if let PathMatch::Matched(ps, r) = match_segments(segments@, whole) {
            assert(texts(captured@) + ps =~= ps);
        }
    }
    while i < segments.len()
        invariant
            whole == path.text(),
            i <= segments@.len(),
            match_segments(segments@, whole) == after_captured(
                texts(captured@),
                match_segments(segments@.skip(i as int), current.text()),
            ),
        decreases segments.len() - i,
    {
        let ghost tail = segments@.skip(i as int);
        assert(tail[0] == segments@[i as int]);
        assert(tail.drop_first() =~= segments@.skip(i + 1));
        let ghost before = texts(captured@);
        let ghost current_text = current.text();
        match match_one(&segments[i], current) {
            None => {
                assert(match_segments(tail, current_text) is NoMatch);
                assert(match_segments(segments@, whole) is NoMatch);
                return None;
            },
            Some((got, rest)) => {
                let ghost got_texts = texts(got@);
                let mut got = got;
                captured.append(&mut got);
                assert(texts(captured@) =~= before + got_texts);
                proof {
                    if let PathMatch::Matched(ps, r) = match_segments(tail.drop_first(), rest.text()) {
                        assert(before + (got_texts + ps) =~= (before + got_texts) + ps);
                    }
                }
                current = rest;
            },
        }
        i = i + 1;
    }
    assert(segments@.skip(i as int) =~= Seq::<PathSegment>::empty());
    assert(texts(captured@) + Seq::<Seq<char>>::empty() =~= texts(captured@));
    Some((captured, current))
}

impl PathDescription {
    /// A description made of the given elements.
    pub fn new(segments: Vec<PathSegment>) -> (r: Self)
        ensures
            r.segments@ == segments@,
    {
        PathDescription { segments }
    }

    /// A description which matches the literal `text`.
    pub fn literal(text: &str) -> (r: Self)
        ensures
            r.segments@.len() == 1,
            r.segments@[0] matches PathSegment::Literal(p) && p@ == text@,
    {
        let mut segments: Vec<PathSegment> = Vec::new();
        segments.push(PathSegment::Literal(text.to_owned()));
        PathDescription { segments }
    }

    /// Parse the entire path, verifying that the description covers all of it. On success the
    /// captured parameters follow `current_path_parameters`; otherwise those are handed back.
    pub fn parse_entire_path(&self, current_path_parameters: Vec<String>, path: Path) -> (r: Result<
        Vec<String>,
        Vec<String>,
    >)
        ensures
            match match_segments(self.segments@, path.text()) {
                PathMatch::Matched(ps, rest) => if rest.len() == 0 {
                    r matches Ok(v) && texts(v@) == texts(current_path_parameters@) + ps
                } else {
                    r == Err::<Vec<String>, Vec<String>>(current_path_parameters)
                },
                _ => r == Err::<Vec<String>, Vec<String>>(current_path_parameters),
            },
    {
        match match_description(&self.segments, path) {
            Some((captured, rest)) => {
                if rest.is_empty() {
                    Ok(append_texts(current_path_parameters, captured))
                } else {
                    Err(current_path_parameters)
                }
            },
            None => Err(current_path_parameters),
        }
    }

    /// Parse the prefix of the path described by `self`, verifying that the rest of the path
    /// isn't empty. On success the captured parameters follow `current_path_parameters`;
    /// otherwise those are handed back.
    pub fn parse_path_prefix(&self, current_path_parameters: Vec<String>, path: Path) -> (r: Result<
        (Vec<String>, Path),
        Vec<String>,
    >)
        ensures
            match match_segments(self.segments@, path.text()) {
                PathMatch::Matched(ps, rest) => if rest.len() > 0 {
                    r matches Ok((v, p)) && texts(v@) == texts(current_path_parameters@) + ps
                        && p.text() == rest
                } else {
                    r == Err::<(Vec<String>, Path), Vec<String>>(current_path_parameters)
                },
                _ => r == Err::<(Vec<String>, Path), Vec<String>>(current_path_parameters),
            },
    {
        match match_description(&self.segments, path) {
            Some((captured, rest)) => {
                if rest.is_empty() {
                    Err(current_path_parameters)
                } else {
                    Ok((append_texts(current_path_parameters, captured), rest))
                }
            },
            None => Err(current_path_parameters),
        }
    }
}

/// Routes a request to a handler based on its method. `HEAD` requests are handled by the
/// `GET` handler, with the response body discarded.
#[derive(Debug, Clone, Copy, PartialEq, Eq, Structural)]
pub struct MethodRouter {
    /// The handler of `GET` (and `HEAD`) requests, if any.
    pub get: Option<usize>,
    /// The handler of `POST` requests, if any.
    pub post: Option<usize>,
    /// The handler of `PUT` requests, if any.
    pub put: Option<usize>,
    /// The handler of `DELETE` requests, if any.
    pub delete: Option<usize>,
    /// The handler of `OPTIONS` requests, if any.
    pub options: Option<usize>,
    /// The handler of `TRACE` requests, if any.
    pub trace: Option<usize>,
    /// The handler of `PATCH` requests, if any.
    pub patch: Option<usize>,
}

/// The handler slot which serves `method`, and whether the response body is to be discarded.
pub open spec fn method_slot(m: MethodRouter, method: Seq<char>) -> (Option<usize>, bool) {
    if method == "GET"@ {
        (m.get, false)
    } else if method == "POST"@ {
        (m.post, false)
    } else if method == "PUT"@ {
        (m.put, false)
    } else if method == "DELETE"@ {
        (m.delete, false)
    } else if method == "OPTIONS"@ {
        (m.options, false)
    } else if method == "TRACE"@ {
        (m.trace, false)
    } else if method == "PATCH"@ {
        (m.patch, false)
    } else if method == "HEAD"@ {
        (m.get, true)
    } else {
        (None, false)
    }
}

/// Where a request ends up.
pub enum Routed {
    /// The handler registered for the method, with the path parameters.
    Handler { handler: usize, path_parameters: Seq<Seq<char>>, ignore_body: bool },
    /// A service which is told the method.
    MethodService { service: usize, path_parameters: Seq<Seq<char>> },
    /// A service which routes the rest of the path itself.
    PathService { service: usize, path_parameters: Seq<Seq<char>>, path: Seq<char> },
    /// The path matched, but nothing handles the method.
    MethodNotAllowed,
    /// No route matched the path.
    NotFound,
}

/// Where the method router `m` sends a request with method `method`.
pub open spec fn method_routed(m: MethodRouter, method: Seq<char>, params: Seq<Seq<char>>) -> Routed {
    match method_slot(m, method) {
        (Some(handler), ignore_body) => Routed::Handler {
            handler,
            path_parameters: params,
            ignore_body,
        },
        (None, _) => Routed::MethodNotAllowed,
    }
}

/// The method router which accepts no method.
pub open spec fn no_methods() -> MethodRouter {
    MethodRouter {
        get: None,
        post: None,
        put: None,
        delete: None,
        options: None,
        trace: None,
        patch: None,
    }
}

/// A method router with only a `GET` (and `HEAD`) handler.
pub fn get(handler: usize) -> (r: MethodRouter)
    ensures
        r == (MethodRouter { get: Some(handler), ..no_methods() }),
{
    MethodRouter::none().get(handler)
}

/// A method router with only a `POST` handler.
pub fn post(handler: usize) -> (r: MethodRouter)
    ensures
        r == (MethodRouter { post: Some(handler), ..no_methods() }),
{
    MethodRouter::none().post(handler)
}

/// A method router with only a `PUT` handler.
pub fn put(handler: usize) -> (r: MethodRouter)
    ensures
        r == (MethodRouter { put: Some(handler), ..no_methods() }),
{
    MethodRouter::none().put(handler)
}

/// A method router with only a `DELETE` handler.
pub fn delete(handler: usize) -> (r: MethodRouter)
    ensures
        r == (MethodRouter { delete: Some(handler), ..no_methods() }),
{
    MethodRouter::none().delete(handler)
}

/// A method router with only an `OPTIONS` handler.
pub fn options(handler: usize) -> (r: MethodRouter)
    ensures
        r == (MethodRouter { options: Some(handler), ..no_methods() }),
{
    MethodRouter::none().options(handler)
}

/// A method router with only a `TRACE` handler.
pub fn trace(handler: usize) -> (r: MethodRouter)
    ensures
        r == (MethodRouter { trace: Some(handler), ..no_methods() }),
{
    MethodRouter::none().trace(handler)
}

/// A method router with only a `PATCH` handler.
pub fn patch(handler: usize) -> (r: MethodRouter)
    ensures
        r == (MethodRouter { patch: Some(handler), ..no_methods() }),
{
    MethodRouter::none().patch(handler)
}

impl MethodRouter {
    /// A method router which accepts no method.
    pub fn none() -> (r: Self)
        ensures
            r == no_methods(),
    {
        MethodRouter {
            get: None,
            post: None,
            put: None,
            delete: None,
            options: None,
            trace: None,
            patch: None,
        }
    }

    /// Also handle `GET` (and `HEAD`) requests with `handler`.
    pub fn get(self, handler: usize) -> (r: Self)
        ensures
            r == (MethodRouter { get: Some(handler), ..self }),
    {
        MethodRouter { get: Some(handler), ..self }
    }

    /// Also handle `POST` requests with `handler`.
    pub fn post(self, handler: usize) -> (r: Self)
        ensures
            r == (MethodRouter { post: Some(handler), ..self }),
    {
        MethodRouter { post: Some(handler), ..self }
    }

    /// Also handle `PUT` requests with `handler`.
    pub fn put(self, handler: usize) -> (r: Self)
        ensures
            r == (MethodRouter { put: Some(handler), ..self }),
    {
        MethodRouter { put: Some(handler), ..self }
    }

    /// Also handle `DELETE` requests with `handler`.
    pub fn delete(self, handler: usize) -> (r: Self)
        ensures
            r == (MethodRouter { delete: Some(handler), ..self }),
    {
        MethodRouter { delete: Some(handler), ..self }
    }

    /// Also handle `OPTIONS` requests with `handler`.
    pub fn options(self, handler: usize) -> (r: Self)
        ensures
            r == (MethodRouter { options: Some(handler), ..self }),
    {
        MethodRouter { options: Some(handler), ..self }
    }

    /// Also handle `TRACE` requests with `handler`.
    pub fn trace(self, handler: usize) -> (r: Self)
        ensures
            r == (MethodRouter { trace: Some(handler), ..self }),
    {
        MethodRouter { trace: Some(handler), ..self }
    }

    /// Also handle `PATCH` requests with `handler`.
    pub fn patch(self, handler: usize) -> (r: Self)
        ensures
            r == (MethodRouter { patch: Some(handler), ..self }),
    {
        MethodRouter { patch: Some(handler), ..self }
    }

    /// The handler which serves `method`, and whether the response body is to be discarded.
    pub fn handler_for(&self, method: &str) -> (r: (Option<usize>, bool))
        ensures
            r == method_slot(*self, method@),
    {
        if text_equals(method, "GET") {
            (self.get, false)
        } else if text_equals(method, "POST") {
            (self.post, false)
        } else if text_equals(method, "PUT") {
            (self.put, false)
        } else if text_equals(method, "DELETE") {
            (self.delete, false)
        } else if text_equals(method, "OPTIONS") {
            (self.options, false)
        } else if text_equals(method, "TRACE") {
            (self.trace, false)
        } else if text_equals(method, "PATCH") {
            (self.patch, false)
        } else if text_equals(method, "HEAD") {
            (self.get, true)
        } else {
            (None, false)
        }
    }
}

/// A chain of routes; the route added last is tried first.
pub enum PathRouter {
    /// Answers every request with `404 Not Found`.
    NotFound,
    /// Requests whose whole path the description matches go to the method router.
    Route { path_description: PathDescription, handler: MethodRouter, fallback: Box<PathRouter> },
    /// Requests whose whole path the description matches go to a service which is told the method.
    MethodService { path_description: PathDescription, service: usize, fallback: Box<PathRouter> },
    /// Requests whose path starts with what the description matches, with more after it, go to
    /// the nested router with the rest of the path.
    Nested { path_description: PathDescription, router: Box<PathRouter>, fallback: Box<PathRouter> },
    /// Requests whose path starts with what the description matches, with more after it, go to a
    /// service with the rest of the path.
    NestedService { path_description: PathDescription, service: usize, fallback: Box<PathRouter> },
    /// Every request goes to the service.
    Service { service: usize },
}

/// Where `node` sends a request with method `method` and encoded path `path`, the parameters
/// `params` having been captured already.
pub open spec fn route_spec(node: PathRouter, method: Seq<char>, params: Seq<Seq<char>>, path: Seq<char>) -> Routed
    decreases node,
{
    match node {
        PathRouter::NotFound => Routed::NotFound,
        PathRouter::Route { path_description, handler, fallback } => match match_segments(
            path_description.segments@,
            path,
        ) {
            PathMatch::Matched(ps, rest) => if rest.len() == 0 {
                method_routed(handler, method, params + ps)
            } else {
                route_spec(*fallback, method, params, path)
            },
            PathMatch::NoMatch => route_spec(*fallback, method, params, path),
        },
        PathRouter::MethodService { path_description, service, fallback } => match match_segments(
            path_description.segments@,
            path,
        ) {
            PathMatch::Matched(ps, rest) => if rest.len() == 0 {
                Routed::MethodService { service, path_parameters: params + ps }
            } else {
                route_spec(*fallback, method, params, path)
            },
            PathMatch::NoMatch => route_spec(*fallback, method, params, path),
        },
        PathRouter::Nested { path_description, router, fallback } => match match_segments(
            path_description.segments@,
            path,
        ) {
            PathMatch::Matched(ps, rest) => if rest.len() > 0 {
                route_spec(*router, method, params + ps, rest)
            } else {
                route_spec(*fallback, method, params, path)
            },
            PathMatch::NoMatch => route_spec(*fallback, method, params, path),
        },
        PathRouter::NestedService { path_description, service, fallback } => match match_segments(
            path_description.segments@,
            path,
        ) {
            PathMatch::Matched(ps, rest) => if rest.len() > 0 {
                Routed::PathService { service, path_parameters: params + ps, path: rest }
            } else {
                route_spec(*fallback, method, params, path)
            },
            PathMatch::NoMatch => route_spec(*fallback, method, params, path),
        },
        PathRouter::Service { service } => Routed::PathService {
            service,
            path_parameters: params,
            path,
        },
    }
}

/// Where a request was routed.
pub enum Dispatch {
    /// Call the handler registered for the method with the path parameters; for `HEAD`
    /// requests `ignore_body` is set, and the response is sent without its body.
    Handler { handler: usize, path_parameters: Vec<String>, ignore_body: bool },
    /// Pass the request to a service, which is told the method.
    MethodService { service: usize, path_parameters: Vec<String> },
    /// Pass the request to a service, with the rest of the path.
    PathService { service: usize, path_parameters: Vec<String>, path: Path },
    /// Answer `405 Method Not Allowed`.
    MethodNotAllowed,
    /// Answer `404 Not Found`.
    NotFound,
}

impl View for Dispatch {
    type V = Routed;

    open spec fn view(&self) -> Routed {
        match self {
            Dispatch::Handler { handler, path_parameters, ignore_body } => Routed::Handler {
                handler: *handler,
                path_parameters: texts(path_parameters@),
                ignore_body: *ignore_body,
            },
            Dispatch::MethodService { service, path_parameters } => Routed::MethodService {
                service: *service,
                path_parameters: texts(path_parameters@),
            },
            Dispatch::PathService { service, path_parameters, path } => Routed::PathService {
                service: *service,
                path_parameters: texts(path_parameters@),
                path: path.text(),
            },
            Dispatch::MethodNotAllowed => Routed::MethodNotAllowed,
            Dispatch::NotFound => Routed::NotFound,
        }
    }
}

fn append_texts(mut a: Vec<String>, b: Vec<String>) -> (r: Vec<String>)
    ensures
        texts(r@) == texts(a@) + texts(b@),
{
    let ghost ta = texts(a@);
    let ghost tb = texts(b@);
    let mut b = b;
    a.append(&mut b);
    assert(texts(a@) =~= ta + tb);
    a
}

fn route_in(node: &PathRouter, method: &str, params: Vec<String>, path: Path) -> (r: Dispatch)
    ensures
        r@ == route_spec(*node, method@, texts(params@), path.text()),
    decreases node,
{
    let ghost t = path.text();
    match node {
        PathRouter::NotFound => Dispatch::NotFound,
        PathRouter::Route { path_description, handler, fallback } => {
            let kept = Path(path.0.duplicate());
            match match_description(&path_description.segments, path) {
                Some((captured, rest)) => {
                    if rest.is_empty() {
                        let all = append_texts(params, captured);
                        match handler.handler_for(method) {
                            (Some(h), ignore_body) => Dispatch::Handler {
                                handler: h,
                                path_parameters: all,
                                ignore_body,
                            },
                            (None, _) => Dispatch::MethodNotAllowed,
                        }
                    } else {
                        route_in(fallback, method, params, kept)
                    }
                },
                None => route_in(fallback, method, params, kept),
            }
        },
        PathRouter::MethodService { path_description, service, fallback } => {
            let kept = Path(path.0.duplicate());
            match match_description(&path_description.segments, path) {
                Some((captured, rest)) => {
                    if rest.is_empty() {
                        Dispatch::MethodService {
                            service: *service,
                            path_parameters: append_texts(params, captured),
                        }
                    } else {
                        route_in(fallback, method, params, kept)
                    }
                },
                None => route_in(fallback, method, params, kept),
            }
        },
        PathRouter::Nested { path_description, router, fallback } => {
            let kept = Path(path.0.duplicate());
            match match_description(&path_description.segments, path) {
                Some((captured, rest)) => {
                    if rest.is_empty() {
                        route_in(fallback, method, params, kept)
                    } else {
                        route_in(router, method, append_texts(params, captured), rest)
                    }
                },
                None => route_in(fallback, method, params, kept),
            }
        },
        PathRouter::NestedService { path_description, service, fallback } => {
            let kept = Path(path.0.duplicate());
            match match_description(&path_description.segments, path) {
                Some((captured, rest)) => {
                    if rest.is_empty() {
                        route_in(fallback, method, params, kept)
                    } else {
                        Dispatch::PathService {
                            service: *service,
                            path_parameters: append_texts(params, captured),
                            path: rest,
                        }
                    }
                },
                None => route_in(fallback, method, params, kept),
            }
        },
        PathRouter::Service { service } => Dispatch::PathService {
            service: *service,
            path_parameters: params,
            path,
        },
    }
}

/// Routes requests to handlers and services by path and method.
pub struct Router {
    /// The routes, the one added last first.
    pub router: PathRouter,
}

impl Default for Router {
    /// A router which answers every request with `404 Not Found`.
    fn default() -> (r: Self)
        ensures
            r.router == PathRouter::NotFound,
    {
        Router { router: PathRouter::NotFound }
    }
}

impl Router {
    /// Where this router sends a request with method `method` and encoded path `path`.
    pub open spec fn routes(&self, method: Seq<char>, path: Seq<char>) -> Routed {
        route_spec(self.router, method, Seq::empty(), path)
    }

    /// Create a new `Router`, which returns `404 Not Found` to all requests.
    pub fn new() -> (r: Self)
        ensures
            r.router == PathRouter::NotFound,
            forall|method: Seq<char>, path: Seq<char>| r.routes(method, path) == Routed::NotFound,
    {
        Router { router: PathRouter::NotFound }
    }

    /// Create a router which passes all requests to the service.
    pub fn from_service(service: usize) -> (r: Self)
        ensures
            r.router == (PathRouter::Service { service }),
    {
        Router { router: PathRouter::Service { service } }
    }

    /// Add another route to the router, tried before the routes already there.
    pub fn route(self, path_description: PathDescription, handler: MethodRouter) -> (r: Self)
        ensures
            r.router == (PathRouter::Route {
                path_description,
                handler,
                fallback: Box::new(self.router),
            }),
    {
        Router {
            router: PathRouter::Route { path_description, handler, fallback: Box::new(self.router) },
        }
    }

    /// Add another route to the router, handled by a service which is told the method.
    pub fn route_service(self, path_description: PathDescription, service: usize) -> (r: Self)
        ensures
            r.router == (PathRouter::MethodService {
                path_description,
                service,
                fallback: Box::new(self.router),
            }),
    {
        Router {
            router: PathRouter::MethodService {
                path_description,
                service,
                fallback: Box::new(self.router),
            },
        }
    }

    /// Nest a router at some path: after removing the prefix described by
    /// `path_description`, the rest of the path is passed to `router`.
    pub fn nest(self, path_description: PathDescription, router: Router) -> (r: Self)
        ensures
            r.router == (PathRouter::Nested {
                path_description,
                router: Box::new(router.router),
                fallback: Box::new(self.router),
            }),
    {
        Router {
            router: PathRouter::Nested {
                path_description,
                router: Box::new(router.router),
                fallback: Box::new(self.router),
            },
        }
    }

    /// Nest a service at some path, like [nest](Self::nest).
    pub fn nest_service(self, path_description: PathDescription, service: usize) -> (r: Self)
        ensures
            r.router == (PathRouter::NestedService {
                path_description,
                service,
                fallback: Box::new(self.router),
            }),
    {
        Router {
            router: PathRouter::NestedService {
                path_description,
                service,
                fallback: Box::new(self.router),
            },
        }
    }

    /// Make this router the "Left" choice of a router chosen when the application is
    /// configured; it routes as before.
    pub fn either_left_route(self) -> (r: Self)
        ensures
            r == self,
    {
        self
    }

    /// Make this router the "Right" choice of a router chosen when the application is
    /// configured; it routes as before.
    pub fn either_right_route(self) -> (r: Self)
        ensures
            r == self,
    {
        self
    }

    /// Route a request with method `method` and encoded path `path`.
    pub fn handle_request(&self, method: &str, path: Path) -> (r: Dispatch)
        ensures
            r@ == self.routes(method@, path.text()),
    {
        let params: Vec<String> = Vec::new();
        assert(texts(params@) =~= Seq::<Seq<char>>::empty());
        route_in(&self.router, method, params, path)
    }
}

/// A route added to a router is tried first: a request whose whole path the new route's
/// description matches goes to the new route's method router, with the captured parameters;
/// every other request goes where the router sent it before.
pub proof fn lemma_route_tried_first(
    router: Router,
    added: Router,
    path_description: PathDescription,
    handler: MethodRouter,
    method: Seq<char>,
    path: Seq<char>,
)
    requires
        added.router == (PathRouter::Route {
            path_description,
            handler,
            fallback: Box::new(router.router),
        }),
    ensures
        added.routes(method, path) == match match_segments(path_description.segments@, path) {
            PathMatch::Matched(ps, rest) => if rest.len() == 0 {
                method_routed(handler, method, ps)
            } else {
                router.routes(method, path)
            },
            PathMatch::NoMatch => router.routes(method, path),
        },
{
    if let PathMatch::Matched(ps, rest) = match_segments(path_description.segments@, path) {
        assert(Seq::<Seq<char>>::empty() + ps =~= ps);
    }
}

/// A nested router sees the rest of the path: a request whose path starts with what the
/// description matches, with more after it, goes where the nested router sends the rest of
/// the path, with the parameters captured by the description; every other request goes where
/// the router sent it before.
pub proof fn lemma_nest_passes_rest(
    router: Router,
    nested: Router,
    added: Router,
    path_description: PathDescription,
    method: Seq<char>,
    path: Seq<char>,
)
    requires
        added.router == (PathRouter::Nested {
            path_description,
            router: Box::new(nested.router),
            fallback: Box::new(router.router),
        }),
    ensures
        added.routes(method, path) == match match_segments(path_description.segments@, path) {
            PathMatch::Matched(ps, rest) => if rest.len() > 0 {
                route_spec(nested.router, method, ps, rest)
            } else {
                router.routes(method, path)
            },
            PathMatch::NoMatch => router.routes(method, path),
        },
{
    if let PathMatch::Matched(ps, rest) = match_segments(path_description.segments@, path) {
        assert(Seq::<Seq<char>>::empty() + ps =~= ps);
    }
}

/// A nested service takes only requests whose path starts with what its description
/// matches, with more after it: those go to the service with the captured parameters and the
/// rest of the path. Every other request is routed exactly as the router without the nested
/// service routes it.
pub proof fn lemma_nest_service_passes_others(
    router: Router,
    added: Router,
    path_description: PathDescription,
    service: usize,
    method: Seq<char>,
    path: Seq<char>,
)
    requires
        added.router == (PathRouter::NestedService {
            path_description,
            service,
            fallback: Box::new(router.router),
        }),
    ensures
        match match_segments(path_description.segments@, path) {
            PathMatch::Matched(ps, rest) => if rest.len() > 0 {
                added.routes(method, path) == Routed::PathService {
                    service,
                    path_parameters: ps,
                    path: rest,
                }
            } else {
                added.routes(method, path) == router.routes(method, path)
            },
            PathMatch::NoMatch => added.routes(method, path) == router.routes(method, path),
        },
{
    if let PathMatch::Matched(ps, rest) = match_segments(path_description.segments@, path) {
        assert(Seq::<Seq<char>>::empty() + ps =~= ps);
    }
}

/// A route to a service takes only requests whose whole path its description matches: those
/// go to the service, which is told the method, with the captured parameters. Every other
/// request is routed exactly as the router without that route routes it.
pub proof fn lemma_route_service_passes_others(
    router: Router,
    added: Router,
    path_description: PathDescription,
    service: usize,
    method: Seq<char>,
    path: Seq<char>,
)
    requires
        added.router == (PathRouter::MethodService {
            path_description,
            service,
            fallback: Box::new(router.router),
        }),
    ensures
        match match_segments(path_description.segments@, path) {
            PathMatch::Matched(ps, rest) => if rest.len() == 0 {
                added.routes(method, path) == Routed::MethodService {
                    service,
                    path_parameters: ps,
                }
            } else {
                added.routes(method, path) == router.routes(method, path)
            },
            PathMatch::NoMatch => added.routes(method, path) == router.routes(method, path),
        },
{
    if let PathMatch::Matched(ps, rest) = match_segments(path_description.segments@, path) {
        assert(Seq::<Seq<char>>::empty() + ps =~= ps);
    }
}

/// A description made only of literals captures no parameters, so a router nested under it
/// routes the rest of the path exactly as it would route it alone.
pub proof fn lemma_literals_capture_nothing(segments: Seq<PathSegment>, path: Seq<char>)
    requires
        forall|i: int| 0 <= i < segments.len() ==> #[trigger] segments[i] is Literal,
    ensures
        match_segments(segments, path) matches PathMatch::Matched(ps, rest) ==> ps.len() == 0,
    decreases segments.len(),
{
    if segments.len() > 0 {
        if let PathMatch::Matched(captured, rest) = match_segment(segments[0], path) {
            assert forall|i: int| 0 <= i < segments.drop_first().len() implies
                #[trigger] segments.drop_first()[i] is Literal by {
                assert(segments[i + 1] is Literal);
            }
            lemma_literals_capture_nothing(segments.drop_first(), rest);
        }
    }
}

/// `HEAD` requests are handled as `GET` requests are, with the response body discarded.
pub proof fn lemma_head_is_get_without_body(m: MethodRouter, params: Seq<Seq<char>>)
    ensures
        method_routed(m, "HEAD"@, params) == match method_routed(m, "GET"@, params) {
            Routed::Handler { handler, path_parameters, .. } => Routed::Handler {
                handler,
                path_parameters,
                ignore_body: true,
            },
            other => other,
        },
{
    reveal_strlit("HEAD");
    reveal_strlit("GET");
    reveal_strlit("POST");
    reveal_strlit("PUT");
    reveal_strlit("DELETE");
    reveal_strlit("OPTIONS");
    reveal_strlit("TRACE");
    reveal_strlit("PATCH");
    assert("HEAD"@[0] != "GET"@[0]);
    assert("HEAD"@[0] != "POST"@[0]);
    assert("HEAD"@[0] != "PUT"@[0]);
    assert("HEAD"@[0] != "DELETE"@[0]);
    assert("HEAD"@[0] != "OPTIONS"@[0]);
    assert("HEAD"@[0] != "TRACE"@[0]);
    assert("HEAD"@[0] != "PATCH"@[0]);
}

/// A route whose description is a single plain literal is reached by exactly that path:
/// such a request goes to the route's method router, with no path parameters.
pub proof fn lemma_plain_route_is_reached(
    router: Router,
    added: Router,
    path_description: PathDescription,
    literal: String,
    handler: MethodRouter,
    method: Seq<char>,
)
    requires
        is_plain(literal@),
        path_description.segments@ == seq![PathSegment::Literal(literal)],
        added.router == (PathRouter::Route {
            path_description,
            handler,
            fallback: Box::new(router.router),
        }),
    ensures
        added.routes(method, literal@) == method_routed(handler, method, Seq::empty()),
{
    let segments = seq![PathSegment::Literal(literal)];
    lemma_strip_plain_prefix(literal@, Seq::empty());
    assert(literal@ + Seq::<char>::empty() =~= literal@);
    assert(strip_prefix_spec(literal@, literal@) == StripOutcome::Stripped(Seq::<char>::empty()));
    assert(segments[0] == PathSegment::Literal(literal));
    assert(match_segment(segments[0], literal@) == PathMatch::Matched(
        Seq::<Seq<char>>::empty(),
        Seq::<char>::empty(),
    ));
    assert(segments.drop_first() =~= Seq::<PathSegment>::empty());
    assert(match_segments(segments.drop_first(), Seq::<char>::empty()) == PathMatch::Matched(
        Seq::<Seq<char>>::empty(),
        Seq::<char>::empty(),
    ));
    assert(match_segments(segments, literal@) == PathMatch::Matched(
        Seq::<Seq<char>>::empty() + Seq::<Seq<char>>::empty(),
        Seq::<char>::empty(),
    ));
    assert(Seq::<Seq<char>>::empty() + (Seq::<Seq<char>>::empty() + Seq::<Seq<char>>::empty())
        =~= Seq::<Seq<char>>::empty());
}

/// The answer to a request which no route takes: `404 Not Found`, with a body naming the path.
pub fn not_found_response(path: &str) -> (r: (StatusCode, String))
    ensures
        r.0.0 == 404,
        r.1@ == path@ + " not found\r\n"@,
{
    let mut body = String::new();
    push_str(&mut body, path);
    push_str(&mut body, " not found\r\n");
    (StatusCode(404), body)
}

/// The answer to a request whose path matched a route without a handler for its method:
/// `405 Method Not Allowed`, with a body naming the method and the path.
pub fn method_not_allowed_response(method: &str, path: &str) -> (r: (StatusCode, String))
    ensures
        r.0.0 == 405,
        r.1@ == "Method "@ + method@ + " not allowed for "@ + path@ + "\r\n"@,
{
    let mut body = String::new();
    push_str(&mut body, "Method ");
    push_str(&mut body, method);
    push_str(&mut body, " not allowed for ");
    push_str(&mut body, path);
    push_str(&mut body, "\r\n");
    (StatusCode(405), body)
}

/// The answer the router itself gives to a request it dispatched as `routed`, with method
/// `method` and encoded path `path`: `404 Not Found` when no route matched the path, `405
/// Method Not Allowed` when none handles the method, and none when a handler or service takes
/// the request.
pub fn unhandled_response(routed: &Dispatch, method: &str, path: &str) -> (r: Option<(StatusCode, String)>)
    ensures
        routed@ is NotFound ==> (r matches Some((s, b)) && s.0 == 404 && b@ == path@
            + " not found\r\n"@),
        routed@ is MethodNotAllowed ==> (r matches Some((s, b)) && s.0 == 405 && b@ == "Method "@
            + method@ + " not allowed for "@ + path@ + "\r\n"@),
        !(routed@ is NotFound) && !(routed@ is MethodNotAllowed) ==> r is None,
{
    match routed {
        Dispatch::NotFound => Some(not_found_response(path)),
        Dispatch::MethodNotAllowed => Some(method_not_allowed_response(method, path)),
        _ => None,
    }
}

} // verus!
