//! Request dispatch: route patterns and the route table.
//!
//! A route pattern is literal, prefix or regex. Lookup scans the table in
//! registration order; the first matching route wins, and a table without
//! a match answers with the fallback handler it was built with.
use crate::exceptions::Exception;
use vstd::prelude::*;

verus! {

/// Whether `pattern` compiles as a regex over bytes. A pure function of
/// the pattern.
pub uninterp spec fn regex_ok(pattern: Seq<u8>) -> bool;

/// Whether a regex search with `pattern` finds a match in `text`. A pure
/// function of pattern and text; meaningful when `regex_ok(pattern)`.
pub uninterp spec fn regex_match(pattern: Seq<u8>, text: Seq<u8>) -> bool;

/// Relies on `regex::bytes::Regex::new` and `is_match`: compiling depends
/// on the pattern alone (a pattern that is not UTF-8 does not compile),
/// and a search is a deterministic function of pattern and text.
#[verifier::external_body]
fn regex_is_match(pattern: &[u8], text: &[u8]) -> (r: Result<bool, Exception>)
    ensures
        r is Ok <==> regex_ok(pattern@),
        r matches Ok(b) ==> b == regex_match(pattern@, text@),
        r matches Err(e) ==> e matches Exception::BadRoutePattern,
{
    let pattern_str = match core::str::from_utf8(pattern) {
        Ok(p) => p,
        Err(_) => return Err(Exception::BadRoutePattern),
    };
    match regex::bytes::Regex::new(pattern_str) {
        Ok(re) => Ok(re.is_match(text)),
        Err(_) => Err(Exception::BadRoutePattern),
    }
}

/// `s` with every trailing slash removed.
pub open spec fn strip_trailing_slashes(s: Seq<u8>) -> Seq<u8>
    decreases s.len(),
{
    if s.len() > 0 && s[s.len() - 1] == 0x2f {
        strip_trailing_slashes(s.take(s.len() - 1))
    } else {
        s
    }
}

/// Whether `p` is a prefix of `s`.
pub open spec fn is_prefix_of(p: Seq<u8>, s: Seq<u8>) -> bool {
    p.len() <= s.len() && s.take(p.len() as int) == p
}

/// The length of `s` once trailing slashes are dropped.
pub fn trim_end(s: &[u8]) -> (r: usize)
    ensures
        r <= s@.len(),
        s@.take(r as int) == strip_trailing_slashes(s@),
{
    let mut e = s.len();
    proof {
        assert(s@.take(e as int) =~= s@);
    }
    while e > 0 && s[e - 1] == 0x2f
        invariant
            e <= s@.len(),
            strip_trailing_slashes(s@.take(e as int)) == strip_trailing_slashes(s@),
        decreases e,
    {
        proof {
            let t = s@.take(e as int);
            assert(t[e - 1] == 0x2f);
            assert(t.take(e - 1) =~= s@.take(e - 1));
        }
        e = e - 1;
    }
    proof {
        let t = s@.take(e as int);
        assert(!(t.len() > 0 && t[t.len() - 1] == 0x2f));
    }
    e
}

/// Whether two byte windows hold the same bytes.
pub fn windows_eq(a: &[u8], alen: usize, b: &[u8], blen: usize) -> (r: bool)
    requires
        alen <= a@.len(),
        blen <= b@.len(),
    ensures
        r <==> a@.take(alen as int) == b@.take(blen as int),
{
    if alen != blen {
        proof {
            assert(a@.take(alen as int).len() != b@.take(blen as int).len());
        }
        return false;
    }
    let mut i: usize = 0;
    let mut ok = true;
    while i < alen
        invariant
            0 <= i <= alen == blen,
            alen <= a@.len(),
            blen <= b@.len(),
            ok <==> (forall|j: int| 0 <= j < i ==> a@[j] == b@[j]),
        decreases alen - i,
    {
        if a[i] != b[i] {
            ok = false;
        }
        i = i + 1;
    }
    proof {
        let x = a@.take(alen as int);
        let y = b@.take(blen as int);
        if ok {
            assert(x =~= y);
        }
        if x == y {
            assert forall|j: int| 0 <= j < alen implies a@[j] == b@[j] by {
                assert(x[j] == y[j]);
            }
        }
    }
    ok
}

/// The kind of a route pattern.
#[derive(Clone, Copy, PartialEq, Eq, Structural, Debug)]
pub enum RouteType {
    /// Matches when pattern and entrance are equal once trailing slashes
    /// are dropped on both sides.
    Path,
    /// Matches when the entrance starts with the pattern.
    StartswithPath,
    /// Matches when a regex search with the pattern finds a match in the
    /// entrance.
    RegexPath,
}

/// A route pattern: bytes and a kind.
pub struct RoutePath {
    route: Vec<u8>,
    route_type: RouteType,
}

/// Whether a pattern of the given kind matches an entrance.
pub open spec fn route_matches(route: Seq<u8>, kind: RouteType, entrance: Seq<u8>) -> bool {
    match kind {
        RouteType::Path => strip_trailing_slashes(route) == strip_trailing_slashes(entrance),
        RouteType::StartswithPath => is_prefix_of(route, entrance),
        RouteType::RegexPath => regex_match(route, entrance),
    }
}

impl RoutePath {
    pub closed spec fn spec_route(&self) -> Seq<u8> {
        self.route@
    }

    pub closed spec fn spec_kind(&self) -> RouteType {
        self.route_type
    }

    pub fn new(route: &[u8], route_type: RouteType) -> (r: Self)
        ensures
            r.spec_route() == route@,
            r.spec_kind() == route_type,
    {
        Self { route: vstd::slice::slice_to_vec(route), route_type }
    }

    /// Whether this pattern matches the entrance. Fails only on a regex
    /// pattern that does not compile.
    pub fn check(&self, entrance: &[u8]) -> (r: Result<bool, Exception>)
        ensures
            r is Err <==> self.spec_kind() is RegexPath && !regex_ok(self.spec_route()),
            r matches Ok(b) ==> b == route_matches(self.spec_route(), self.spec_kind(), entrance@),
            r matches Err(e) ==> e matches Exception::BadRoutePattern,
    {
        match self.route_type {
            RouteType::RegexPath => regex_is_match(self.route.as_slice(), entrance),
            RouteType::StartswithPath => {
                if self.route.len() > entrance.len() {
                    return Ok(false);
                }
                let b = windows_eq(self.route.as_slice(), self.route.len(), entrance, self.route.len());
                proof {
                    assert(self.spec_route().take(self.spec_route().len() as int)
                        =~= self.spec_route());
                }
                Ok(b)
            },
            RouteType::Path => {
                let re = trim_end(self.route.as_slice());
                let ee = trim_end(entrance);
                Ok(windows_eq(self.route.as_slice(), re, entrance, ee))
            },
        }
    }
}

/// A registered route: a handler behind a pattern.
pub struct Route<H> {
    handler: H,
}

impl<H> Route<H> {
    pub closed spec fn spec_handler(&self) -> H {
        self.handler
    }

    pub fn new(handler: H) -> (r: Self)
        ensures
            r.spec_handler() == handler,
    {
        Self { handler }
    }

    pub fn get_handler(&self) -> (r: &H)
        ensures
            *r == self.spec_handler(),
    {
        &self.handler
    }
}

/// What scanning a route table for an entrance yields.
pub enum RouteLookup<H> {
    /// The handler of the first matching route.
    Handler(H),
    /// No route matches: the table's fallback answers.
    Fallback,
    /// A regex route with a pattern that does not compile stands before
    /// any matching route.
    BadPattern,
}

/// Scan the routes in order; the first match wins.
pub open spec fn spec_lookup<H>(routes: Seq<(RoutePath, Route<H>)>, entrance: Seq<u8>) -> RouteLookup<
    H,
>
    decreases routes.len(),
{
    if routes.len() == 0 {
        RouteLookup::Fallback
    } else {
        let rp = routes[0].0;
        if rp.spec_kind() is RegexPath && !regex_ok(rp.spec_route()) {
            RouteLookup::BadPattern
        } else if route_matches(rp.spec_route(), rp.spec_kind(), entrance) {
            RouteLookup::Handler(routes[0].1.spec_handler())
        } else {
            spec_lookup(routes.skip(1), entrance)
        }
    }
}

/// The route table: registered routes in order, and the fallback handler
/// for entrances that no route claims.
pub struct Router<H> {
    routes: Vec<(RoutePath, Route<H>)>,
    not_found: Route<H>,
}

impl<H> Router<H> {
    pub closed spec fn spec_routes(&self) -> Seq<(RoutePath, Route<H>)> {
        self.routes@
    }

    pub closed spec fn spec_not_found(&self) -> H {
        self.not_found.spec_handler()
    }

    /// An empty table with the given fallback handler.
    pub fn new(not_found: H) -> (r: Self)
        ensures
            r.spec_routes().len() == 0,
            r.spec_not_found() == not_found,
    {
        Self { routes: Vec::new(), not_found: Route::new(not_found) }
    }

    /// Register a handler behind a pattern.
    pub fn route(&mut self, path: RoutePath, handler: H)
        ensures
            final(self).spec_routes().len() == old(self).spec_routes().len() + 1,
            final(self).spec_routes().take(old(self).spec_routes().len() as int) == old(
                self,
            ).spec_routes(),
            final(self).spec_routes().last().0 == path,
            final(self).spec_routes().last().1.spec_handler() == handler,
            final(self).spec_not_found() == old(self).spec_not_found(),
    {
        self.routes.push((path, Route::new(handler)));
        proof {
            assert(self.spec_routes().take(old(self).spec_routes().len() as int) =~= old(
                self,
            ).spec_routes());
        }
    }

    /// Register a route behind a pattern.
    pub fn register(&mut self, path: RoutePath, route: Route<H>)
        ensures
            final(self).spec_routes() == old(self).spec_routes().push((path, route)),
            final(self).spec_not_found() == old(self).spec_not_found(),
    {
        self.routes.push((path, route));
    }

    /// The handler for an entrance: the first matching route's handler,
    /// or the fallback when no route matches. Fails only when a regex
    /// route whose pattern does not compile stands before any match.
    pub fn get_handler(&self, path: &[u8]) -> (r: Result<&H, Exception>)
        ensures
            r is Err <==> spec_lookup(self.spec_routes(), path@) is BadPattern,
            r matches Ok(h) ==> match spec_lookup(self.spec_routes(), path@) {
                RouteLookup::Handler(hh) => *h == hh,
                RouteLookup::Fallback => *h == self.spec_not_found(),
                RouteLookup::BadPattern => false,
            },
            r matches Err(e) ==> e matches Exception::BadRoutePattern,
    {
        let n = self.routes.len();
        let mut i: usize = 0;
        proof {
            assert(self.spec_routes().skip(0) =~= self.spec_routes());
        }
        while i < n
            invariant
                0 <= i <= n,
                n == self.spec_routes().len(),
                spec_lookup(self.spec_routes().skip(i as int), path@) == spec_lookup(
                    self.spec_routes(),
                    path@,
                ),
            decreases n - i,
        {
            let entry = &self.routes[i];
            let ghost rem = self.spec_routes().skip(i as int);
            proof {
                assert(rem[0] == self.spec_routes()[i as int]);
            }
            match entry.0.check(path) {
                Ok(true) => {
                    return Ok(entry.1.get_handler());
                },
                Ok(false) => {},
                Err(e) => {
                    return Err(e);
                },
            }
            proof {
                assert(rem.skip(1) =~= self.spec_routes().skip(i + 1));
            }
            i = i + 1;
        }
        proof {
            assert(self.spec_routes().skip(n as int) =~= Seq::<(RoutePath, Route<H>)>::empty());
        }
        Ok(self.not_found.get_handler())
    }
}

} // verus!
