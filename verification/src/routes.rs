//! The route registry: every exposed endpoint as a (method, path, metadata)
//! tuple, registration-time uniqueness, and the API document generated from
//! the same metadata.

use vstd::prelude::*;

use crate::wire::str_eq;

verus! {

/// One registered endpoint, with the metadata the API document is
/// generated from.
#[derive(Clone, Debug)]
pub struct Route {
    pub method: String,
    pub path: String,
    pub summary: String,
}

/// The set of exposed endpoints.
#[derive(Clone, Debug)]
pub struct RouteRegistry {
    pub routes: Vec<Route>,
}

impl RouteRegistry {
    /// No two routes share method and path.
    pub open spec fn wf(self) -> bool {
        forall|i: int, j: int|
            #![trigger self.routes@[i], self.routes@[j]]
            0 <= i < j < self.routes@.len() ==> !(self.routes@[i].method@
                == self.routes@[j].method@ && self.routes@[i].path@ == self.routes@[j].path@)
    }

    /// Whether a route with this method and path is registered.
    pub open spec fn spec_has_route(self, method: Seq<char>, path: Seq<char>) -> bool {
        exists|i: int|
            #![trigger self.routes@[i]]
            0 <= i < self.routes@.len() && self.routes@[i].method@ == method && self.routes@[
                i
            ].path@ == path
    }

    pub fn new() -> (r: RouteRegistry)
        ensures
            r.wf(),
            r.routes@.len() == 0,
    {
        RouteRegistry { routes: Vec::new() }
    }

    /// Registers an endpoint. A duplicate method+path pair is a
    /// registration-time error and leaves the registry unchanged.
    pub fn register(&mut self, method: &str, path: &str, summary: &str) -> (r: Result<(), String>)
        requires
            old(self).wf(),
        ensures
            final(self).wf(),
            r is Ok <==> !old(self).spec_has_route(method@, path@),
            r is Ok ==> ({
                &&& final(self).routes@.len() == old(self).routes@.len() + 1
                &&& final(self).routes@.drop_last() == old(self).routes@
                &&& final(self).routes@.last().method@ == method@
                &&& final(self).routes@.last().path@ == path@
                &&& final(self).routes@.last().summary@ == summary@
            }),
            r matches Err(m) ==> *final(self) == *old(self) && m@
                == "duplicate route registration"@,
    {
        let n = self.routes.len();
        let mut i: usize = 0;
        while i < n
            invariant
                *self == *old(self),
                old(self).wf(),
                n == self.routes@.len(),
                0 <= i <= n,
                forall|j: int|
                    0 <= j < i ==> !(#[trigger] self.routes@[j].method@ == method@
                        && self.routes@[j].path@ == path@),
        decreases n - i,
        {
            if str_eq(self.routes[i].method.as_str(), method) && str_eq(
                self.routes[i].path.as_str(),
                path,
            ) {
                proof {
                    let k = i as int;
                    assert(old(self).spec_has_route(method@, path@)) by {
                        assert(self.routes@[k].method@ == method@ && self.routes@[k].path@
                            == path@);
                    }
                }
                return Err("duplicate route registration".to_owned());
            }
            i = i + 1;
        }
        let route = Route {
            method: method.to_owned(),
            path: path.to_owned(),
            summary: summary.to_owned(),
        };
        let ghost before = self.routes@;
        self.routes.push(route);
        proof {
            assert(self.routes@.drop_last() =~= before);
            assert forall|a: int, b: int|
                #![trigger self.routes@[a], self.routes@[b]]
                0 <= a < b < self.routes@.len() implies !(self.routes@[a].method@
                == self.routes@[b].method@ && self.routes@[a].path@ == self.routes@[b].path@) by {
                if b < before.len() {
                    assert(before[a].method@ == self.routes@[a].method@);
                } else {
                    assert(self.routes@[b].method@ == method@ && self.routes@[b].path@ == path@);
                    assert(!(before[a].method@ == method@ && before[a].path@ == path@));
                }
            }
        }
        Ok(())
    }

    /// Paths of the registered routes, in registration order. The API
    /// document draws on exactly this set.
    pub fn doc_paths(&self) -> (r: Vec<String>)
        ensures
            r@.len() == self.routes@.len(),
            forall|i: int| 0 <= i < r@.len() ==> #[trigger] r@[i]@ == self.routes@[i].path@,
    {
        let mut out: Vec<String> = Vec::new();
        let mut i: usize = 0;
        while i < self.routes.len()
            invariant
                0 <= i <= self.routes@.len(),
                out@.len() == i,
                forall|j: int| 0 <= j < i ==> #[trigger] out@[j]@ == self.routes@[j].path@,
            decreases self.routes@.len() - i,
        {
            out.push(self.routes[i].path.clone());
            i = i + 1;
        }
        out
    }
}

/// The machine-readable API document: a title and the documented path set.
#[derive(Clone, Debug)]
pub struct ApiDoc {
    pub title: String,
    pub paths: Vec<String>,
}

/// Builds the API document from the registry. Its path set is exactly the
/// registered path set: documentation is never hand-duplicated.
pub fn api_doc(reg: &RouteRegistry) -> (d: ApiDoc)
    ensures
        d.paths@.len() == reg.routes@.len(),
        forall|i: int| 0 <= i < d.paths@.len() ==> #[trigger] d.paths@[i]@ == reg.routes@[i].path@,
{
    ApiDoc { title: "service".to_owned(), paths: reg.doc_paths() }
}

/// The registry this service ships: the single operational health endpoint.
pub fn default_registry() -> (r: RouteRegistry)
    ensures
        r.wf(),
        r.routes@.len() == 1,
        r.routes@[0].method@ == "GET"@,
        r.routes@[0].path@ == "/health"@,
{
    let mut reg = RouteRegistry::new();
    proof {
        assert(!reg.spec_has_route("GET"@, "/health"@));
    }
    let res = reg.register("GET", "/health", "Service is healthy");
    proof {
        assert(res is Ok);
        assert(reg.routes@[0] == reg.routes@.last());
    }
    match res {
        Ok(_) => {},
        Err(_) => {},
    }
    reg
}

} // verus!
