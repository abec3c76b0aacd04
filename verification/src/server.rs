//! The routing side of the dispatcher: the route table (exact path match,
//! method-agnostic, last registration wins), the static-file path rule, and
//! the decision of which source serves a request. The socket loop around
//! these lives outside the library; every decision it takes is made here.

use vstd::prelude::*;
use crate::pairs::{Pairs, bytes_eq};
use crate::http_response::{HttpResponse, push_all};
use crate::helpers::spec_mime_of;
use crate::lit::{spec_index_html, index_html};

verus! {

/// The routes as a sequence of (path, handler) pairs.
pub open spec fn routes_view<H>(items: Seq<(Vec<u8>, H)>) -> Seq<(Seq<u8>, H)> {
    Seq::new(items.len(), |i: int| (items[i].0@, items[i].1))
}

/// Paths are pairwise distinct.
pub open spec fn routes_wf<H>(s: Seq<(Seq<u8>, H)>) -> bool {
    forall|i: int, j: int| 0 <= i < j < s.len() ==> s[i].0 != s[j].0
}

/// The handler of the last route carrying `p`, or `None`.
pub open spec fn routes_get<H>(s: Seq<(Seq<u8>, H)>, p: Seq<u8>) -> Option<H>
    decreases s.len(),
{
    if s.len() == 0 {
        None
    } else if s.last().0 == p {
        Some(s.last().1)
    } else {
        routes_get(s.drop_last(), p)
    }
}

/// Whether some route carries the path `p`.
pub open spec fn routes_has<H>(s: Seq<(Seq<u8>, H)>, p: Seq<u8>) -> bool {
    exists|i: int| 0 <= i < s.len() && s[i].0 == p
}

/// The position of the route carrying `p` (unique when `routes_wf` holds).
pub open spec fn route_index<H>(s: Seq<(Seq<u8>, H)>, p: Seq<u8>) -> int {
    choose|i: int| 0 <= i < s.len() && s[i].0 == p
}

/// `s` after binding `p` to `h`: the existing route for `p` is replaced in
/// place; a new path goes to the end.
pub open spec fn routes_insert<H>(s: Seq<(Seq<u8>, H)>, p: Seq<u8>, h: H) -> Seq<(Seq<u8>, H)> {
    if routes_has(s, p) {
        s.update(route_index(s, p), (p, h))
    } else {
        s.push((p, h))
    }
}

/// `routes_get` finds no handler exactly when no route carries the path.
pub proof fn lemma_routes_get_none<H>(s: Seq<(Seq<u8>, H)>, p: Seq<u8>)
    ensures
        routes_get(s, p) is None <==> !routes_has(s, p),
    decreases s.len(),
{
    if s.len() > 0 {
        lemma_routes_get_none(s.drop_last(), p);
        if s.last().0 != p {
            assert(routes_has(s, p) ==> routes_has(s.drop_last(), p)) by {
                if routes_has(s, p) {
                    let i = choose|i: int| 0 <= i < s.len() && s[i].0 == p;
                    assert(i < s.len() - 1);
                    assert(s.drop_last()[i].0 == p);
                }
            }
        }
    }
}

/// Under distinct paths, the route at any position carrying `p` is what
/// `routes_get` returns.
pub proof fn lemma_routes_get_at<H>(s: Seq<(Seq<u8>, H)>, p: Seq<u8>, i: int)
    requires
        routes_wf(s),
        0 <= i < s.len(),
        s[i].0 == p,
    ensures
        routes_get(s, p) == Some(s[i].1),
    decreases s.len(),
{
    if i < s.len() - 1 {
        assert(s.last().0 != p);
        assert(s.drop_last()[i].0 == p);
        lemma_routes_get_at(s.drop_last(), p, i);
    }
}

/// Registering preserves path uniqueness.
pub proof fn lemma_routes_insert_wf<H>(s: Seq<(Seq<u8>, H)>, p: Seq<u8>, h: H)
    requires
        routes_wf(s),
    ensures
        routes_wf(routes_insert(s, p, h)),
{
    if routes_has(s, p) {
        let i = route_index(s, p);
        assert(0 <= i < s.len() && s[i].0 == p);
    } else {
        assert forall|i: int, j: int|
            0 <= i < j < s.push((p, h)).len() implies s.push((p, h))[i].0 != s.push(
            (p, h),
        )[j].0 by {
            if j == s.len() {
                assert(s.push((p, h))[i].0 == s[i].0);
                assert(!routes_has(s, p));
            }
        }
    }
}

/// After registering, the registered path maps to the registered handler.
pub proof fn lemma_routes_get_insert_same<H>(s: Seq<(Seq<u8>, H)>, p: Seq<u8>, h: H)
    requires
        routes_wf(s),
    ensures
        routes_get(routes_insert(s, p, h), p) == Some(h),
{
    lemma_routes_insert_wf(s, p, h);
    let t = routes_insert(s, p, h);
    if routes_has(s, p) {
        let i = route_index(s, p);
        assert(0 <= i < s.len() && s[i].0 == p);
        assert(t[i] == (p, h));
        lemma_routes_get_at(t, p, i);
    } else {
        assert(t[s.len() as int] == (p, h));
        lemma_routes_get_at(t, p, s.len() as int);
    }
}

/// Registering two handlers for the same path leaves only the second in
/// effect: whatever stood in the table before, after registering `h1` and
/// then `h2` under one path, a lookup of that path yields `h2`.
pub proof fn lemma_register_overrides<H>(s: Seq<(Seq<u8>, H)>, p: Seq<u8>, h1: H, h2: H)
    requires
        routes_wf(s),
    ensures
        routes_get(routes_insert(routes_insert(s, p, h1), p, h2), p) == Some(h2),
{
    lemma_routes_insert_wf(s, p, h1);
    lemma_routes_get_insert_same(routes_insert(s, p, h1), p, h2);
}

/// The route table: exact path match only, no method discrimination; the
/// last registration for a path wins.
#[verifier::reject_recursive_types(H)]
pub struct Router<H> {
    routes: Vec<(Vec<u8>, H)>,
}

/// Which source serves a request, in the dispatcher's priority order.
pub enum Dispatch<'a, H> {
    /// A static file resolved; registered handlers never run for the path.
    ServeStatic,
    /// No static file; the path's registered handler runs.
    Invoke(&'a H),
    /// No static file and no route: the freshly constructed default response
    /// is served as it is.
    ServeDefault,
}

impl<H> View for Router<H> {
    type V = Seq<(Seq<u8>, H)>;

    closed spec fn view(&self) -> Seq<(Seq<u8>, H)> {
        routes_view(self.routes@)
    }
}

impl<H> Router<H> {
    /// Paths are pairwise distinct.
    pub open spec fn wf(&self) -> bool {
        routes_wf(self@)
    }

    /// An empty route table.
    pub fn new() -> (r: Router<H>)
        ensures
            r@ =~= Seq::<(Seq<u8>, H)>::empty(),
            r.wf(),
    {
        Router { routes: Vec::new() }
    }

    /// Bind `path` to `handler`; a repeated path takes the new handler.
    pub fn add_handler(&mut self, path: Vec<u8>, handler: H)
        requires
            old(self).wf(),
        ensures
            final(self).wf(),
            final(self)@ == routes_insert(old(self)@, path@, handler),
    {
        proof {
            lemma_routes_insert_wf(old(self)@, path@, handler);
        }
        let ghost s0 = self@;
        let ghost gp = path@;
        let mut i: usize = 0;
        while i < self.routes.len()
            invariant
                self@ == s0,
                s0 == old(self)@,
                gp == path@,
                routes_wf(s0),
                0 <= i <= self@.len(),
                self@.len() == self.routes@.len(),
                forall|j: int| 0 <= j < i ==> self@[j].0 != gp,
            decreases self@.len() - i,
        {
            if bytes_eq(&self.routes[i].0, &path) {
                proof {
                    assert(s0[i as int].0 == self.routes@[i as int].0@);
                    assert(routes_has(s0, gp)) by {
                        assert(0 <= (i as int) && (i as int) < s0.len() && s0[i as int].0 == gp);
                    }
                    assert(route_index(s0, gp) == i as int) by {
                        let ki = route_index(s0, gp);
                        assert(0 <= ki < s0.len() && s0[ki].0 == gp);
                        if ki != i as int {
                            assert(s0[i as int].0 == s0[ki].0);
                        }
                    }
                }
                self.routes.set(i, (path, handler));
                proof {
                    assert(self@ =~= routes_insert(s0, gp, handler));
                }
                return;
            }
            assert(self@[i as int].0 == self.routes@[i as int].0@);
            i = i + 1;
        }
        proof {
            assert(!routes_has(s0, gp));
        }
        self.routes.push((path, handler));
        proof {
            assert(self@ =~= routes_insert(s0, gp, handler));
        }
    }

    /// The handler registered for `path`, or `None`.
    pub fn lookup(&self, path: &Vec<u8>) -> (r: Option<&H>)
        requires
            self.wf(),
        ensures
            match r {
                Some(h) => routes_get(self@, path@) == Some(*h),
                None => routes_get(self@, path@) is None,
            },
    {
        let mut i: usize = 0;
        while i < self.routes.len()
            invariant
                self.wf(),
                0 <= i <= self@.len(),
                self@.len() == self.routes@.len(),
                forall|j: int| 0 <= j < i ==> self@[j].0 != path@,
            decreases self@.len() - i,
        {
            if bytes_eq(&self.routes[i].0, path) {
                proof {
                    lemma_routes_get_at(self@, path@, i as int);
                }
                return Some(&self.routes[i].1);
            }
            assert(self@[i as int].0 == self.routes@[i as int].0@);
            i = i + 1;
        }
        proof {
            lemma_routes_get_none(self@, path@);
        }
        None
    }

    /// The dispatcher's choice for one request: a resolved static file is
    /// served and handlers never run; otherwise the path's handler; otherwise
    /// the default response.
    pub fn dispatch<'a>(&'a self, static_resolved: bool, path: &Vec<u8>) -> (r: Dispatch<'a, H>)
        requires
            self.wf(),
        ensures
            static_resolved <==> r is ServeStatic,
            !static_resolved ==> (match routes_get(self@, path@) {
                Some(h) => r matches Dispatch::Invoke(g) && *g == h,
                None => r is ServeDefault,
            }),
    {
        if static_resolved {
            Dispatch::ServeStatic
        } else {
            match self.lookup(path) {
                Some(h) => Dispatch::Invoke(h),
                None => Dispatch::ServeDefault,
            }
        }
    }
}

/// The file a static request maps to: the configured root, then the request
/// path (which starts with `/`), with `index.html` appended when the path
/// ends in `/`.
pub open spec fn spec_static_path(folder: Seq<u8>, path: Seq<u8>) -> Seq<u8> {
    if path.len() > 0 && path.last() == 47 {
        folder + path + spec_index_html()
    } else {
        folder + path
    }
}

/// The candidate file path for static resolution, as `spec_static_path`
/// joins it.
pub fn static_file_path(folder: &Vec<u8>, path: &Vec<u8>) -> (r: Vec<u8>)
    ensures
        r@ == spec_static_path(folder@, path@),
{
    let mut out: Vec<u8> = Vec::new();
    push_all(&mut out, folder);
    push_all(&mut out, path);
    if path.len() > 0 && path[path.len() - 1] == 47 {
        push_all(&mut out, &index_html());
    }
    proof {
        assert(out@ =~= spec_static_path(folder@, path@));
    }
    out
}

/// The response a resolved static file is served with: status 200, no
/// caller-set headers, the file's bytes, and the content type its path's
/// extension implies.
pub fn static_response(path: &Vec<u8>, contents: Vec<u8>) -> (r: HttpResponse)
    ensures
        r@.status == 200,
        r@.headers == Seq::<(Seq<u8>, Seq<u8>)>::empty(),
        r@.content_type == Some(spec_mime_of(path@)),
        r@.body == contents@,
        r.wf(),
{
    let mut resp = HttpResponse::new(200, Pairs::new(), None, Vec::new());
    HttpResponse::write_from_file_bytes(&mut resp, path, contents);
    resp
}

/// The response handed to a handler, and served untouched when no route
/// matches: status 0 (deliberately not a valid status until someone sets
/// it), no headers, no declared content type, an empty body.
pub fn default_response() -> (r: HttpResponse)
    ensures
        r@.status == 0,
        r@.headers == Seq::<(Seq<u8>, Seq<u8>)>::empty(),
        r@.content_type is None,
        r@.body =~= Seq::<u8>::empty(),
        r.wf(),
{
    HttpResponse::new(0, Pairs::new(), None, Vec::new())
}

/// The response that is actually serialized after a handler ran: the mutated
/// one on success, the handler's alternate response on failure, the mutated
/// one discarded.
pub fn chosen_response(handler_result: Result<(), HttpResponse>, response: HttpResponse) -> (r:
    HttpResponse)
    ensures
        r@ == (match handler_result {
            Ok(()) => response@,
            Err(alt) => alt@,
        }),
{
    match handler_result {
        Ok(()) => response,
        Err(alt) => alt,
    }
}

} // verus!
