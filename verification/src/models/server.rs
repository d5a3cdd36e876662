//! The server's immutable configuration: where to listen, and the route
//! table that dispatches each accepted request.
use crate::models::router::Router;
use vstd::prelude::*;

verus! {

/// A server: host, port and the route table. The accept loop that feeds
/// connections to the table lives outside the verified core.
pub struct Server<H> {
    host: String,
    port: i32,
    router: Router<H>,
}

impl<H> Server<H> {
    pub closed spec fn spec_host(&self) -> Seq<char> {
        self.host@
    }

    pub closed spec fn spec_port(&self) -> i32 {
        self.port
    }

    pub closed spec fn spec_router(&self) -> Router<H> {
        self.router
    }

    pub fn new(host: &str, port: i32, router: Router<H>) -> (r: Self)
        ensures
            r.spec_host() == host@,
            r.spec_port() == port,
            r.spec_router() == router,
    {
        Self { host: String::from_str(host), port, router }
    }

    pub fn get_host(&self) -> (r: &String)
        ensures
            r@ == self.spec_host(),
    {
        &self.host
    }

    pub fn get_port(&self) -> (r: i32)
        ensures
            r == self.spec_port(),
    {
        self.port
    }

    /// The route table, for dispatching an accepted request.
    pub fn router(&self) -> (r: &Router<H>)
        ensures
            *r == self.spec_router(),
    {
        &self.router
    }
}

} // verus!
