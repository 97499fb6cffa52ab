use vstd::prelude::*;
use vstd::string::*;

use crate::request::Request;
use crate::response::{Response, Status};

verus! {

/// The routes of a table: each target path with its handler, in order of first registration.
pub type RouteList<H> = Seq<(Seq<char>, H)>;

pub open spec fn has_route<H>(m: RouteList<H>, p: Seq<char>) -> bool {
    exists|i: int| 0 <= i < m.len() && m[i].0 == p
}

pub open spec fn route_index<H>(m: RouteList<H>, p: Seq<char>) -> int {
    choose|i: int| 0 <= i < m.len() && m[i].0 == p
}

/// Every path occurs at most once.
pub open spec fn unique_paths<H>(m: RouteList<H>) -> bool {
    forall|i: int, j: int| 0 <= i < m.len() && 0 <= j < m.len() && m[i].0 == m[j].0 ==> i == j
}

/// `m` with `p` routed to `h`: a known path has its handler replaced, a new one is appended.
pub open spec fn with_route<H>(m: RouteList<H>, p: Seq<char>, h: H) -> RouteList<H> {
    if has_route(m, p) {
        m.update(route_index(m, p), (p, h))
    } else {
        m.push((p, h))
    }
}

/// The handler of the path `p`, if any.
pub open spec fn route_of<H>(m: RouteList<H>, p: Seq<char>) -> Option<H> {
    if has_route(m, p) {
        Some(m[route_index(m, p)].1)
    } else {
        None
    }
}

/// A table from exact target paths to handlers.
pub struct Router<H> {
    routes: Vec<(String, H)>,
}

impl<H> View for Router<H> {
    type V = RouteList<H>;

    closed spec fn view(&self) -> RouteList<H> {
        self.routes@.map_values(|r: (String, H)| (r.0@, r.1))
    }
}

/// What a handler receives: the parsed request and a fresh response to fill in.
pub struct Context {
    pub request: Request,
    pub response: Response,
}

#[derive(Debug, PartialEq, Eq, Structural)]
pub enum HandlerError {
    NotFound,
    InternalError,
}

/// The status of the response that stands in for a failed handler: `NotFound` gives
/// `404 Not Found`, `InternalError` gives `500 Internal Server Error`.
pub fn error_status(e: &HandlerError) -> (r: Status)
    ensures
        *e == HandlerError::NotFound ==> r == Status::NotFound,
        *e == HandlerError::InternalError ==> r == Status::InternalServerError,
{
    match e {
        HandlerError::NotFound => Status::NotFound,
        HandlerError::InternalError => Status::InternalServerError,
    }
}

impl<H> Router<H> {
    /// The table's invariant: no path occurs twice.
    pub closed spec fn wf(&self) -> bool {
        unique_paths(self@)
    }

    pub fn new() -> (r: Self)
        ensures
            r@ == Seq::<(Seq<char>, H)>::empty(),
            r.wf(),
    {
        let r = Router { routes: Vec::new() };
        assert(r@ =~= Seq::<(Seq<char>, H)>::empty());
        r
    }

    fn index_of(&self, path: &str) -> (r: Option<usize>)
        ensures
            match r {
                Some(i) => i < self@.len() && self@[i as int].0 == path@,
                None => !has_route(self@, path@),
            },
    {
        let wanted = path.to_owned();
        let mut i: usize = 0;
        while i < self.routes.len()
            invariant
                i <= self.routes@.len(),
                self@.len() == self.routes@.len(),
                wanted@ == path@,
                forall|j: int| 0 <= j < i ==> self@[j].0 != path@,
            decreases self.routes@.len() - i,
        {
            if self.routes[i].0.eq(&wanted) {
                return Some(i);
            }
            i = i + 1;
        }
        None
    }

    /// Routes `path` to `handler`, replacing an earlier handler of that path.
    pub fn add_route(&mut self, path: &str, handler: H)
        requires
            old(self).wf(),
        ensures
            final(self).wf(),
            final(self)@ == with_route(old(self)@, path@, handler),
    {
        match self.index_of(path) {
            Some(i) => {
                let ghost before = self@;
                self.routes.set(i, (path.to_owned(), handler));
                proof {
                    assert(route_index(before, path@) == i as int);
                    assert(self@ =~= with_route(before, path@, handler));
                }
            },
            None => {
                self.routes.push((path.to_owned(), handler));
                assert(self@ =~= with_route(old(self)@, path@, handler));
            },
        }
    }

    /// Routes `path` to a handler of GET requests.
    pub fn get(&mut self, path: &str, handler: H)
        requires
            old(self).wf(),
        ensures
            final(self).wf(),
            final(self)@ == with_route(old(self)@, path@, handler),
    {
        self.add_route(path, handler);
    }

    /// Routes `path` to a handler of POST requests.
    pub fn post(&mut self, path: &str, handler: H)
        requires
            old(self).wf(),
        ensures
            final(self).wf(),
            final(self)@ == with_route(old(self)@, path@, handler),
    {
        self.add_route(path, handler);
    }

    /// The handler of exactly the target `path`.
    pub fn lookup(&self, path: &str) -> (r: Option<&H>)
        requires
            self.wf(),
        ensures
            match route_of(self@, path@) {
                Some(h) => r matches Some(x) && *x == h,
                None => r is None,
            },
    {
        match self.index_of(path) {
            Some(i) => {
                proof {
                    assert(route_index(self@, path@) == i as int);
                }
                Some(&self.routes[i].1)
            },
            None => None,
        }
    }
}

} // verus!
