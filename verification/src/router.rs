//! The route table and its matcher.
//!
//! A pattern is a path split at `/`; a segment of the form `{name}` matches
//! any one path segment and binds it under `name`. Lookup scans routes in
//! registration order and returns the first whose method and pattern match,
//! together with the exact parameter bindings.

use vstd::prelude::*;
use crate::params::{ParamMap, assoc_get};
use crate::text::{
    eq_ignore_ascii_case, seq_eq_ci, split_seq, split_str, str_eq, string_eq, views_of,
};

verus! {

/// HTTP methods the router supports.
#[derive(Clone, Copy, PartialEq, Eq, Structural, Debug, Hash)]
pub enum Method {
    Get,
    Post,
    Put,
    Delete,
    Patch,
    Head,
    Options,
}

/// What `Method::from_str` accepts: the seven method names, compared
/// without regard to ASCII case.
pub open spec fn spec_method_from_str(s: Seq<char>) -> Option<Method> {
    if seq_eq_ci(s, "GET"@) {
        Some(Method::Get)
    } else if seq_eq_ci(s, "POST"@) {
        Some(Method::Post)
    } else if seq_eq_ci(s, "PUT"@) {
        Some(Method::Put)
    } else if seq_eq_ci(s, "DELETE"@) {
        Some(Method::Delete)
    } else if seq_eq_ci(s, "PATCH"@) {
        Some(Method::Patch)
    } else if seq_eq_ci(s, "HEAD"@) {
        Some(Method::Head)
    } else if seq_eq_ci(s, "OPTIONS"@) {
        Some(Method::Options)
    } else {
        None
    }
}

impl Method {
    pub fn from_str(s: &str) -> (r: Option<Method>)
        ensures
            r == spec_method_from_str(s@),
    {
        if eq_ignore_ascii_case(s, "GET") {
            Some(Method::Get)
        } else if eq_ignore_ascii_case(s, "POST") {
            Some(Method::Post)
        } else if eq_ignore_ascii_case(s, "PUT") {
            Some(Method::Put)
        } else if eq_ignore_ascii_case(s, "DELETE") {
            Some(Method::Delete)
        } else if eq_ignore_ascii_case(s, "PATCH") {
            Some(Method::Patch)
        } else if eq_ignore_ascii_case(s, "HEAD") {
            Some(Method::Head)
        } else if eq_ignore_ascii_case(s, "OPTIONS") {
            Some(Method::Options)
        } else {
            None
        }
    }
}

/// A pattern segment of the form `{name}`.
pub open spec fn is_param_seg(seg: Seq<char>) -> bool {
    seg.len() >= 2 && seg[0] == '{' && seg[seg.len() - 1] == '}'
}

/// The `name` inside a `{name}` segment.
pub open spec fn param_name_of(seg: Seq<char>) -> Seq<char> {
    seg.subrange(1, seg.len() - 1)
}

/// One pattern segment against one path segment: a parameter segment
/// matches anything, a literal only itself.
pub open spec fn seg_matches(pat: Seq<char>, actual: Seq<char>) -> bool {
    is_param_seg(pat) || pat == actual
}

/// A whole pattern against a whole path, segment by segment.
pub open spec fn pattern_matches(pat: Seq<Seq<char>>, path: Seq<Seq<char>>) -> bool {
    pat.len() == path.len() && forall|i: int| 0 <= i < pat.len() ==> seg_matches(pat[i], path[i])
}

/// The parameter bindings a matching pattern produces, in segment order.
pub open spec fn binding_pairs(pat: Seq<Seq<char>>, path: Seq<Seq<char>>) -> Seq<
    (Seq<char>, Seq<char>),
>
    decreases pat.len(),
{
    if pat.len() == 0 || path.len() == 0 {
        Seq::empty()
    } else {
        let rest = binding_pairs(pat.drop_last(), path.drop_last());
        if is_param_seg(pat.last()) {
            rest.push((param_name_of(pat.last()), path.last()))
        } else {
            rest
        }
    }
}

/// No two parameter segments of the pattern share a name.
pub open spec fn distinct_param_names(pat: Seq<Seq<char>>) -> bool {
    forall|k1: int, k2: int|
        0 <= k1 < k2 < pat.len() && is_param_seg(pat[k1]) && is_param_seg(pat[k2])
            ==> param_name_of(pat[k1]) != param_name_of(pat[k2])
}

/// One registered route: a method, the split pattern, and the handler
/// index it was assigned (its position).
struct RouteEntry {
    method: Method,
    segments: Vec<String>,
}

/// The result of a successful lookup: which handler, and the path
/// parameters the pattern bound.
pub struct RouteMatch {
    pub handler_index: usize,
    pub params: ParamMap,
}

/// The route table. The handler index of a route is its position in
/// registration order.
pub struct Router {
    routes: Vec<RouteEntry>,
}

impl View for Router {
    type V = Seq<(Method, Seq<Seq<char>>)>;

    closed spec fn view(&self) -> Seq<(Method, Seq<Seq<char>>)> {
        self.routes@.map_values(|r: RouteEntry| (r.method, views_of(r.segments@)))
    }
}

/// Route `idx` accepts the request (same method, matching pattern).
pub open spec fn route_accepts(
    routes: Seq<(Method, Seq<Seq<char>>)>,
    idx: int,
    method: Method,
    segs: Seq<Seq<char>>,
) -> bool {
    routes[idx].0 == method && pattern_matches(routes[idx].1, segs)
}

/// The first route that accepts the request, searching from `i`.
pub open spec fn spec_find_from(
    routes: Seq<(Method, Seq<Seq<char>>)>,
    method: Method,
    segs: Seq<Seq<char>>,
    i: int,
) -> Option<int>
    decreases routes.len() - i,
    when 0 <= i <= routes.len()
{
    if i >= routes.len() {
        None
    } else if route_accepts(routes, i, method, segs) {
        Some(i)
    } else {
        spec_find_from(routes, method, segs, i + 1)
    }
}

/// The first route that accepts the request, if any.
pub open spec fn spec_find(
    routes: Seq<(Method, Seq<Seq<char>>)>,
    method: Method,
    segs: Seq<Seq<char>>,
) -> Option<int> {
    spec_find_from(routes, method, segs, 0)
}

impl Router {
    /// Every registered pattern binds each parameter name at most once.
    pub open spec fn wf(&self) -> bool {
        forall|i: int| 0 <= i < self@.len() ==> distinct_param_names(#[trigger] self@[i].1)
    }

    pub fn new() -> (r: Router)
        ensures
            r@ =~= Seq::<(Method, Seq<Seq<char>>)>::empty(),
            r.wf(),
    {
        Router { routes: Vec::new() }
    }

    pub fn len(&self) -> (r: usize)
        ensures
            r == self@.len(),
    {
        self.routes.len()
    }

    /// Register a route. The new route is assigned the next index in
    /// registration order; a pattern that binds the same parameter name
    /// twice is rejected and leaves the table unchanged.
    pub fn insert(&mut self, method: Method, path: &str) -> (r: Result<usize, String>)
        requires
            old(self).wf(),
        ensures
            final(self).wf(),
            match r {
                Ok(i) => {
                    &&& distinct_param_names(split_seq(path@, '/'))
                    &&& i == old(self)@.len()
                    &&& final(self)@ =~= old(self)@.push((method, split_seq(path@, '/')))
                },
                Err(_) => {
                    &&& !distinct_param_names(split_seq(path@, '/'))
                    &&& final(self)@ =~= old(self)@
                },
            },
    {
        let segments = split_str(path, '/');
        if !check_distinct_param_names(&segments) {
            return Err(String::from_str("route pattern binds the same parameter name twice"));
        }
        let index = self.routes.len();
        let ghost pre = self@;
        self.routes.push(RouteEntry { method, segments });
        proof {
            assert(self@ =~= pre.push((method, split_seq(path@, '/'))));
        }
        Ok(index)
    }

    /// Match a request against the table: the first route in registration
    /// order with the request's method and a matching pattern wins, and its
    /// parameter bindings are returned exactly.
    pub fn find(&self, method: Method, path: &str) -> (r: Option<RouteMatch>)
        requires
            self.wf(),
        ensures
            match spec_find(self@, method, split_seq(path@, '/')) {
                Some(i) => {
                    &&& r is Some
                    &&& r.unwrap().handler_index == i
                    &&& r.unwrap().params@ == binding_pairs(self@[i].1, split_seq(path@, '/'))
                    &&& r.unwrap().params.wf()
                },
                None => r is None,
            },
    {
        let segs = split_str(path, '/');
        let n = self.routes.len();
        let ghost segs_v = split_seq(path@, '/');
        let mut i: usize = 0;
        while i < n
            invariant
                self.wf(),
                n == self@.len(),
                n == self.routes@.len(),
                i <= n,
                segs_v == split_seq(path@, '/'),
                views_of(segs@) == segs_v,
                segs@.len() == segs_v.len(),
                forall|j: int| 0 <= j < i ==> !route_accepts(self@, j, method, segs_v),
                spec_find(self@, method, segs_v) == spec_find_from(self@, method, segs_v, i as int),
            decreases n - i,
        {
            let entry = &self.routes[i];
            proof {
                assert(self@[i as int] == (entry.method, views_of(entry.segments@)));
            }
            if entry.method == method {
                if let Some(params) = try_match(&entry.segments, &segs) {
                    proof {
                        assert(route_accepts(self@, i as int, method, segs_v));
                        assert(spec_find_from(self@, method, segs_v, i as int) == Some(i as int));
                        assert(self@[i as int].1 == views_of(entry.segments@));
                        assert(spec_find(self@, method, split_seq(path@, '/')) == Some(i as int));
                        assert(params@ == binding_pairs(self@[i as int].1, split_seq(path@, '/')));
                    }
                    return Some(RouteMatch { handler_index: i, params });
                }
            }
            proof {
                assert(!route_accepts(self@, i as int, method, segs_v));
            }
            i += 1;
        }
        None
    }
}

/// Whether any two parameter segments of the pattern share a name.
fn check_distinct_param_names(segments: &Vec<String>) -> (r: bool)
    ensures
        r == distinct_param_names(views_of(segments@)),
{
    let ghost pat = views_of(segments@);
    let n = segments.len();
    let mut k2: usize = 0;
    while k2 < n
        invariant
            n == segments@.len(),
            pat == views_of(segments@),
            pat.len() == n,
            k2 <= n,
            forall|a: int, b: int|
                0 <= a < b < k2 && is_param_seg(pat[a]) && is_param_seg(pat[b]) ==> param_name_of(
                    pat[a],
                ) != param_name_of(pat[b]),
        decreases n - k2,
    {
        if is_param_segment(&segments[k2]) {
            let name2 = param_segment_name(&segments[k2]);
            let mut k1: usize = 0;
            while k1 < k2
                invariant
                    n == segments@.len(),
                    pat == views_of(segments@),
                    pat.len() == n,
                    k1 <= k2 < n,
                    is_param_seg(pat[k2 as int]),
                    name2@ == param_name_of(pat[k2 as int]),
                    forall|a: int|
                        0 <= a < k1 && is_param_seg(pat[a]) ==> param_name_of(pat[a])
                            != param_name_of(pat[k2 as int]),
                decreases k2 - k1,
            {
                if is_param_segment(&segments[k1]) {
                    let name1 = param_segment_name(&segments[k1]);
                    if string_eq(&name1, name2.as_str()) {
                        proof {
                            assert(is_param_seg(pat[k1 as int]) && is_param_seg(pat[k2 as int]));
                            assert(param_name_of(pat[k1 as int]) == param_name_of(pat[k2 as int]));
                            assert(!distinct_param_names(pat));
                        }
                        return false;
                    }
                }
                k1 += 1;
            }
        }
        k2 += 1;
    }
    true
}

/// Whether the segment has the `{name}` form.
fn is_param_segment(seg: &String) -> (r: bool)
    ensures
        r == is_param_seg(seg@),
{
    let n = seg.as_str().unicode_len();
    n >= 2 && seg.as_str().get_char(0) == '{' && seg.as_str().get_char(n - 1) == '}'
}

/// The name inside a `{name}` segment.
fn param_segment_name(seg: &String) -> (r: String)
    requires
        is_param_seg(seg@),
    ensures
        r@ == param_name_of(seg@),
{
    let n = seg.as_str().unicode_len();
    String::from_str(seg.as_str().substring_char(1, n - 1))
}

/// Match a pattern against split path segments, producing the bindings.
fn try_match(pattern: &Vec<String>, segs: &Vec<String>) -> (r: Option<ParamMap>)
    requires
        distinct_param_names(views_of(pattern@)),
    ensures
        match r {
            Some(params) => {
                &&& pattern_matches(views_of(pattern@), views_of(segs@))
                &&& params@ == binding_pairs(views_of(pattern@), views_of(segs@))
                &&& params.wf()
            },
            None => !pattern_matches(views_of(pattern@), views_of(segs@)),
        },
{
    let ghost pat = views_of(pattern@);
    let ghost path = views_of(segs@);
    let n = pattern.len();
    if segs.len() != n {
        return None;
    }
    let mut params = ParamMap::new();
    let mut i: usize = 0;
    while i < n
        invariant
            n == pattern@.len(),
            n == segs@.len(),
            pat == views_of(pattern@),
            path == views_of(segs@),
            pat.len() == n,
            path.len() == n,
            distinct_param_names(pat),
            i <= n,
            params.wf(),
            params@ == binding_pairs(pat.take(i as int), path.take(i as int)),
            forall|j: int| 0 <= j < i ==> seg_matches(pat[j], path[j]),
            forall|q: Seq<char>|
                params.spec_contains(q) ==> exists|k: int|
                    0 <= k < i && is_param_seg(#[trigger] pat[k]) && param_name_of(pat[k]) == q,
        decreases n - i,
    {
        let ghost params_pre = params;
        if is_param_segment(&pattern[i]) {
            let name = param_segment_name(&pattern[i]);
            let ghost namev = name@;
            proof {
                if params.spec_contains(namev) {
                    let k = choose|k: int|
                        0 <= k < i && is_param_seg(#[trigger] pat[k]) && param_name_of(pat[k])
                            == namev;
                    assert(param_name_of(pat[k]) != param_name_of(pat[i as int]));
                }
            }
            params.insert(name, segs[i].clone());
            proof {
                lemma_binding_pairs_snoc(pat, path, i as int);
                assert(params@ =~= params_pre@.push((namev, path[i as int])));
                assert forall|q: Seq<char>| params.spec_contains(q) implies exists|k: int|
                    0 <= k < i + 1 && is_param_seg(#[trigger] pat[k]) && param_name_of(pat[k])
                        == q by {
                    if q != namev {
                        assert(params.spec_get(q) == params_pre.spec_get(q));
                        assert(params_pre.spec_contains(q));
                        let k = choose|k: int|
                            0 <= k < i && is_param_seg(#[trigger] pat[k]) && param_name_of(pat[k])
                                == q;
                        assert(0 <= k < i + 1 && is_param_seg(pat[k]) && param_name_of(pat[k])
                            == q);
                    } else {
                        assert(is_param_seg(pat[i as int]) && param_name_of(pat[i as int]) == q);
                    }
                }
            }
        } else {
            if !string_eq(&pattern[i], segs[i].as_str()) {
                proof {
                    assert(!seg_matches(pat[i as int], path[i as int]));
                }
                return None;
            }
            proof {
                lemma_binding_pairs_snoc(pat, path, i as int);
            }
        }
        i += 1;
    }
    proof {
        assert(pat.take(n as int) =~= pat);
        assert(path.take(n as int) =~= path);
    }
    Some(params)
}

/// Extending both prefixes by one segment extends the bindings by that
/// segment's pair, if it is a parameter segment.
proof fn lemma_binding_pairs_snoc(pat: Seq<Seq<char>>, path: Seq<Seq<char>>, i: int)
    requires
        0 <= i < pat.len(),
        0 <= i < path.len(),
    ensures
        binding_pairs(pat.take(i + 1), path.take(i + 1)) == if is_param_seg(pat[i]) {
            binding_pairs(pat.take(i), path.take(i)).push((param_name_of(pat[i]), path[i]))
        } else {
            binding_pairs(pat.take(i), path.take(i))
        },
{
    let p1 = pat.take(i + 1);
    let q1 = path.take(i + 1);
    assert(p1.len() == i + 1 && q1.len() == i + 1);
    assert(p1.drop_last() =~= pat.take(i));
    assert(q1.drop_last() =~= path.take(i));
    assert(p1.last() == pat[i]);
    assert(q1.last() == path[i]);
}

/// A request that exactly one registered route accepts is routed to that
/// route: lookup returns its index (law of unique matches).
pub proof fn lemma_find_unique_match(
    routes: Seq<(Method, Seq<Seq<char>>)>,
    method: Method,
    segs: Seq<Seq<char>>,
    i: int,
)
    requires
        0 <= i < routes.len(),
        route_accepts(routes, i, method, segs),
        forall|j: int| 0 <= j < routes.len() && j != i ==> !route_accepts(routes, j, method, segs),
    ensures
        spec_find(routes, method, segs) == Some(i),
{
    lemma_find_from_first(routes, method, segs, 0, i);
}

/// A request that no registered route accepts finds no match.
pub proof fn lemma_find_no_match(
    routes: Seq<(Method, Seq<Seq<char>>)>,
    method: Method,
    segs: Seq<Seq<char>>,
)
    requires
        forall|j: int| 0 <= j < routes.len() ==> !route_accepts(routes, j, method, segs),
    ensures
        spec_find(routes, method, segs) is None,
{
    lemma_find_from_none(routes, method, segs, 0);
}

/// A found index is a valid route index.
pub proof fn lemma_spec_find_in_range(
    routes: Seq<(Method, Seq<Seq<char>>)>,
    method: Method,
    segs: Seq<Seq<char>>,
)
    ensures
        spec_find(routes, method, segs) matches Some(i) ==> 0 <= i < routes.len(),
{
    lemma_spec_find_from_in_range(routes, method, segs, 0);
}

proof fn lemma_spec_find_from_in_range(
    routes: Seq<(Method, Seq<Seq<char>>)>,
    method: Method,
    segs: Seq<Seq<char>>,
    lo: int,
)
    requires
        0 <= lo <= routes.len(),
    ensures
        spec_find_from(routes, method, segs, lo) matches Some(i) ==> lo <= i < routes.len(),
    decreases routes.len() - lo,
{
    if lo < routes.len() && !route_accepts(routes, lo, method, segs) {
        lemma_spec_find_from_in_range(routes, method, segs, lo + 1);
    }
}

proof fn lemma_find_from_first(
    routes: Seq<(Method, Seq<Seq<char>>)>,
    method: Method,
    segs: Seq<Seq<char>>,
    lo: int,
    i: int,
)
    requires
        0 <= lo <= i < routes.len(),
        route_accepts(routes, i, method, segs),
        forall|j: int| lo <= j < i ==> !route_accepts(routes, j, method, segs),
    ensures
        spec_find_from(routes, method, segs, lo) == Some(i),
    decreases i - lo,
{
    if lo < i {
        lemma_find_from_first(routes, method, segs, lo + 1, i);
    }
}

proof fn lemma_find_from_none(
    routes: Seq<(Method, Seq<Seq<char>>)>,
    method: Method,
    segs: Seq<Seq<char>>,
    lo: int,
)
    requires
        0 <= lo <= routes.len(),
        forall|j: int| lo <= j < routes.len() ==> !route_accepts(routes, j, method, segs),
    ensures
        spec_find_from(routes, method, segs, lo) is None,
    decreases routes.len() - lo,
{
    if lo < routes.len() {
        lemma_find_from_none(routes, method, segs, lo + 1);
    }
}

} // verus!
