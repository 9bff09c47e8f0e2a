//! Route registration and the startup build of the read-only per-request
//! state: the route table and the handler-signature cache, whose indices
//! stay synchronized for the server's lifetime.

use vstd::prelude::*;
use crate::router::{Method, RouteMatch, Router, spec_method_from_str, spec_find, distinct_param_names};
use crate::signature::HandlerSignature;
use crate::text::split_seq;

verus! {

/// The routes an application registers before the server starts. The
/// handler callables live in the host, in a list parallel to this one.
pub struct Server {
    pub routes: Vec<(Method, String)>,
}

impl Server {
    pub fn new() -> (r: Server)
        ensures
            r.routes@ =~= Seq::<(Method, String)>::empty(),
    {
        Server { routes: Vec::new() }
    }

    /// Register a route; an unsupported method string fails registration
    /// and leaves the table unchanged.
    pub fn add_route(&mut self, method: &str, path: &str) -> (r: Result<(), String>)
        ensures
            match r {
                Ok(_) => {
                    &&& spec_method_from_str(method@) is Some
                    &&& final(self).routes@.len() == old(self).routes@.len() + 1
                    &&& final(self).routes@.drop_last() =~= old(self).routes@
                    &&& final(self).routes@.last().0 == spec_method_from_str(method@).unwrap()
                    &&& final(self).routes@.last().1@ == path@
                },
                Err(m) => {
                    &&& spec_method_from_str(method@) is None
                    &&& final(self).routes@ =~= old(self).routes@
                    &&& m@ == "Unsupported method: "@ + method@
                },
            },
    {
        match Method::from_str(method) {
            Some(m) => {
                let ghost pre = self.routes@;
                self.routes.push((m, String::from_str(path)));
                proof {
                    assert(self.routes@.drop_last() =~= pre);
                }
                Ok(())
            }
            None => Err(String::from_str("Unsupported method: ").concat(method)),
        }
    }
}

/// The read-only state every request is dispatched against: the compiled
/// route table and the signature cache, one signature per route index.
pub struct AppState {
    pub router: Router,
    pub signatures: Vec<HandlerSignature>,
}

impl AppState {
    /// The table invariant: a signature exists for
    /// exactly every route index, and both are well-formed.
    pub open spec fn wf(&self) -> bool {
        &&& self.router.wf()
        &&& self.router@.len() == self.signatures@.len()
        &&& forall|i: int| 0 <= i < self.signatures@.len() ==> (#[trigger] self.signatures@[i]).wf()
    }

    /// Compile the registered routes and their signatures into the
    /// dispatch state. Registration order assigns the indices; a pattern
    /// that binds one parameter name twice, or a signature with a
    /// duplicate parameter name, fails the build.
    pub fn build(server: &Server, signatures: Vec<HandlerSignature>) -> (r: Result<
        AppState,
        String,
    >)
        requires
            forall|i: int| 0 <= i < signatures@.len() ==> (#[trigger] signatures@[i]).wf(),
        ensures
            match r {
                Ok(st) => {
                    &&& st.wf()
                    &&& st.router@.len() == server.routes@.len()
                    &&& forall|i: int|
                        0 <= i < server.routes@.len() ==> #[trigger] st.router@[i] == (
                            server.routes@[i].0,
                            split_seq(server.routes@[i].1@, '/'),
                        )
                    &&& st.signatures == signatures
                },
                Err(_) => signatures@.len() != server.routes@.len() || exists|i: int|
                    0 <= i < server.routes@.len() && !distinct_param_names(
                        split_seq((#[trigger] server.routes@[i]).1@, '/'),
                    ),
            },
    {
        if signatures.len() != server.routes.len() {
            return Err(String::from_str("one handler signature is needed per route"));
        }
        let mut router = Router::new();
        let n = server.routes.len();
        let mut i: usize = 0;
        while i < n
            invariant
                n == server.routes@.len(),
                i <= n,
                router.wf(),
                router@.len() == i,
                forall|j: int|
                    0 <= j < i ==> #[trigger] router@[j] == (
                        server.routes@[j].0,
                        split_seq(server.routes@[j].1@, '/'),
                    ),
            decreases n - i,
        {
            let (method, path) = (server.routes[i].0, &server.routes[i].1);
            match router.insert(method, path.as_str()) {
                Ok(idx) => {
                    proof {
                        assert(idx == i);
                    }
                }
                Err(e) => {
                    proof {
                        assert(!distinct_param_names(split_seq(server.routes@[i as int].1@, '/')));
                    }
                    return Err(e);
                }
            }
            i += 1;
        }
        Ok(AppState { router, signatures })
    }

    /// Match a request; a returned index is always valid into the
    /// signature cache (the tables stay synchronized).
    pub fn find_route(&self, method: Method, path: &str) -> (r: Option<RouteMatch>)
        requires
            self.wf(),
        ensures
            match r {
                Some(m) => {
                    &&& m.handler_index < self.signatures@.len()
                    &&& spec_find(self.router@, method, split_seq(path@, '/')) == Some(
                        m.handler_index as int,
                    )
                    &&& m.params@ == crate::router::binding_pairs(
                        self.router@[m.handler_index as int].1,
                        split_seq(path@, '/'),
                    )
                    &&& m.params.wf()
                },
                None => spec_find(self.router@, method, split_seq(path@, '/')) is None,
            },
    {
        proof {
            crate::router::lemma_spec_find_in_range(self.router@, method, split_seq(path@, '/'));
        }
        self.router.find(method, path)
    }

    /// The signature of a matched route.
    pub fn signature_at(&self, index: usize) -> (r: &HandlerSignature)
        requires
            self.wf(),
            index < self.signatures@.len(),
        ensures
            r == self.signatures@[index as int],
            r.wf(),
    {
        &self.signatures[index]
    }
}

/// Registration never reuses an index: with routes registered one after
/// another in a table of growing length, the index each registration is
/// assigned (the table's length at that moment) differs from every index
/// assigned before — registering the same route twice yields two distinct
/// indices.
pub proof fn lemma_reregistration_distinct_indices(
    routes: Seq<(Method, Seq<Seq<char>>)>,
    route: (Method, Seq<Seq<char>>),
)
    ensures
        routes.len() != routes.push(route).len(),
{
}

} // verus!
