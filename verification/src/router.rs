//! The route tree: maps a (method, path) pair to exactly one registered
//! handler.  A path pattern is a sequence of segments, each either a literal
//! or a named parameter.  Matching is deterministic: among the patterns that
//! match a path, the one that is literal at the earliest position where the
//! candidates differ wins (literal segments take precedence over parameters).

use vstd::prelude::*;

verus! {

/// An HTTP request method.
#[derive(Clone, Copy, PartialEq, Eq, Structural, Debug, Hash)]
pub enum Method {
    Get,
    Post,
    Put,
    Delete,
    Patch,
    Head,
    Options,
}

/// One segment of a path pattern: a literal byte string, or a named
/// parameter that matches any single segment and binds it to the name.
pub enum PatSeg {
    Lit(Vec<u8>),
    Param(Vec<u8>),
}

impl View for PatSeg {
    type V = (bool, Seq<u8>);

    open spec fn view(&self) -> (bool, Seq<u8>) {
        match self {
            PatSeg::Lit(b) => (false, b@),
            PatSeg::Param(n) => (true, n@),
        }
    }
}

/// A registered route: a method, a pattern, and the identifier of the
/// external handler that owns it.
pub struct Route {
    pub method: Method,
    pub pattern: Vec<PatSeg>,
    pub handler: u64,
}

/// Registering a (method, pattern) pair that is already present fails.
#[derive(Clone, Copy, PartialEq, Eq, Structural, Debug)]
pub struct DuplicateRouteError;

/// The pattern of a route.
pub open spec fn route_pat(r: Route) -> Seq<PatSeg> {
    r.pattern@
}

/// A single pattern segment matches a concrete path segment when it is a
/// parameter, or a literal equal to it.
pub open spec fn seg_matches(seg: PatSeg, actual: Vec<u8>) -> bool {
    seg@.0 || seg@.1 == actual@
}

/// A pattern matches a path when they have the same length and every
/// segment matches.
pub open spec fn pat_matches(pat: Seq<PatSeg>, path: Seq<Vec<u8>>) -> bool {
    &&& pat.len() == path.len()
    &&& forall|i: int| 0 <= i < pat.len() ==> seg_matches(#[trigger] pat[i], path[i])
}

/// Two patterns have the same shape when their literal segments agree and
/// their parameter positions coincide; parameter names are not part of the
/// shape, since a parameter matches the same paths under any name.
pub open spec fn same_shape(a: Seq<PatSeg>, b: Seq<PatSeg>) -> bool {
    &&& a.len() == b.len()
    &&& forall|i: int|
        0 <= i < a.len() ==> ((#[trigger] a[i])@.0 == b[i]@.0 && (!a[i]@.0 ==> a[i]@.1 == b[i]@.1))
}

/// Precedence, read from position `i` on: pattern `a` beats pattern `b`
/// when, at the first position where one is literal and the other a
/// parameter, `a` is the literal one.
pub open spec fn beats_from(a: Seq<PatSeg>, b: Seq<PatSeg>, i: int) -> bool
    decreases a.len() - i,
{
    if i < 0 || i >= a.len() || i >= b.len() {
        false
    } else if a[i]@.0 == b[i]@.0 {
        beats_from(a, b, i + 1)
    } else {
        !a[i]@.0
    }
}

/// Pattern `a` takes precedence over pattern `b`.
pub open spec fn beats(a: Seq<PatSeg>, b: Seq<PatSeg>) -> bool {
    beats_from(a, b, 0)
}

/// The parameter bindings a pattern extracts from a path, from position `i`
/// on: one (name, path segment) pair per parameter segment, in order.
pub open spec fn bindings_from(pat: Seq<PatSeg>, path: Seq<Vec<u8>>, i: int) -> Seq<
    (Seq<u8>, Seq<u8>),
>
    decreases pat.len() - i,
{
    if i < 0 || i >= pat.len() || i >= path.len() {
        Seq::empty()
    } else if pat[i]@.0 {
        seq![(pat[i]@.1, path[i]@)] + bindings_from(pat, path, i + 1)
    } else {
        bindings_from(pat, path, i + 1)
    }
}

/// All parameter bindings a pattern extracts from a path.
pub open spec fn bindings(pat: Seq<PatSeg>, path: Seq<Vec<u8>>) -> Seq<(Seq<u8>, Seq<u8>)> {
    bindings_from(pat, path, 0)
}

/// The (name, value) pairs of a parameter list, as byte sequences.
pub open spec fn pairs_view(s: Seq<(Vec<u8>, Vec<u8>)>) -> Seq<(Seq<u8>, Seq<u8>)> {
    Seq::new(s.len(), |i: int| (s[i].0@, s[i].1@))
}

/// A pattern as a mathematical sequence of (is-parameter, text) pairs.
pub open spec fn pat_view(p: Seq<PatSeg>) -> Seq<(bool, Seq<u8>)> {
    Seq::new(p.len(), |i: int| p[i]@)
}

/// Mounting `child` under `prefix` collides with `rs` when some child
/// route, once prefixed, duplicates a route already in `rs`.
pub open spec fn mount_conflict(rs: Seq<Route>, prefix: Seq<PatSeg>, child: Seq<Route>) -> bool {
    exists|k: int|
        0 <= k < child.len() && has_duplicate(
            rs,
            (#[trigger] child[k]).method,
            prefix + route_pat(child[k]),
        )
}

/// Some route in `rs` already carries this method and a pattern of this
/// shape.
pub open spec fn has_duplicate(rs: Seq<Route>, m: Method, p: Seq<PatSeg>) -> bool {
    exists|i: int|
        0 <= i < rs.len() && (#[trigger] rs[i]).method == m && same_shape(route_pat(rs[i]), p)
}

/// Route `i` of `rs` matches the request (method, path).
pub open spec fn route_matches(rs: Seq<Route>, i: int, m: Method, path: Seq<Vec<u8>>) -> bool {
    0 <= i < rs.len() && rs[i].method == m && pat_matches(route_pat(rs[i]), path)
}

/// Some route matches the request (method, path).
pub open spec fn any_route_matches(rs: Seq<Route>, m: Method, path: Seq<Vec<u8>>) -> bool {
    exists|i: int| route_matches(rs, i, m, path)
}

/// Some route's pattern matches the path, whatever its method.
pub open spec fn any_pattern_matches(rs: Seq<Route>, path: Seq<Vec<u8>>) -> bool {
    exists|i: int| 0 <= i < rs.len() && pat_matches(route_pat(#[trigger] rs[i]), path)
}

/// The request (method, path) resolves to this handler with these parameter
/// bindings: some matching route carries them, and that route takes
/// precedence over every other matching route.
pub open spec fn resolves_to(
    rs: Seq<Route>,
    m: Method,
    path: Seq<Vec<u8>>,
    handler: u64,
    params: Seq<(Seq<u8>, Seq<u8>)>,
) -> bool {
    exists|i: int|
        {
            &&& #[trigger] route_matches(rs, i, m, path)
            &&& rs[i].handler == handler
            &&& params == bindings(route_pat(rs[i]), path)
            &&& forall|j: int|
                #[trigger] route_matches(rs, j, m, path) ==> j == i || beats(
                    route_pat(rs[i]),
                    route_pat(rs[j]),
                )
        }
}

/// What `resolve` reports for a request.
pub enum Resolution {
    /// A route matched: the registered handler and the extracted path
    /// parameters, as (name, value) pairs in pattern order.
    Found { handler: u64, params: Vec<(Vec<u8>, Vec<u8>)> },
    /// Some pattern matches the path, but none with this method.
    MethodNotAllowed,
    /// No pattern matches the path.
    NotFound,
}

/// The router: the set of registered routes.  Its invariant: no two routes
/// share a method and a pattern shape, so resolution is unambiguous.
pub struct Router {
    pub routes: Vec<Route>,
}

/// No two routes of `rs` share a method and a pattern shape.
pub open spec fn routes_wf(rs: Seq<Route>) -> bool {
    forall|i: int, j: int|
        0 <= i < j < rs.len() ==> !((#[trigger] rs[i]).method == (#[trigger] rs[j]).method
            && same_shape(route_pat(rs[i]), route_pat(rs[j])))
}

impl Router {
    /// No two registered routes collide.
    pub open spec fn wf(&self) -> bool {
        routes_wf(self.routes@)
    }

    /// An empty router: nothing registered, trivially well-formed.
    pub fn new() -> (r: Router)
        ensures
            r.wf(),
            r.routes@.len() == 0,
    {
        Router { routes: Vec::new() }
    }

    /// Register a handler for a (method, pattern) pair.  Fails, and leaves
    /// the router unchanged, exactly when a route with this method and an
    /// equivalent pattern is already registered.
    pub fn register(&mut self, method: Method, pattern: Vec<PatSeg>, handler: u64) -> (r: Result<
        (),
        DuplicateRouteError,
    >)
        requires
            old(self).wf(),
        ensures
            final(self).wf(),
            match r {
                Ok(_) => !has_duplicate(old(self).routes@, method, pattern@) && final(self).routes@
                    == old(self).routes@.push(Route { method, pattern, handler }),
                Err(_) => has_duplicate(old(self).routes@, method, pattern@) && final(self).routes@
                    == old(self).routes@,
            },
    {
        if find_same(&self.routes, method, &pattern) {
            return Err(DuplicateRouteError);
        }
        let ghost pre = self.routes@;
        self.routes.push(Route { method, pattern, handler });
        proof {
            let rs = self.routes@;
            assert forall|i: int, j: int| 0 <= i < j < rs.len() implies !((#[trigger] rs[i]).method
                == (#[trigger] rs[j]).method && same_shape(route_pat(rs[i]), route_pat(rs[j]))) by {
                if j < pre.len() {
                    assert(rs[i] == pre[i] && rs[j] == pre[j]);
                } else {
                    assert(rs[i] == pre[i]);
                    assert(!(pre[i].method == method && same_shape(route_pat(pre[i]), rs[j].pattern@)));
                }
            }
        }
        Ok(())
    }

    /// Resolve a request: the handler of the unique preferred route that
    /// matches the method and path, with its parameter bindings; or
    /// `MethodNotAllowed` when only the method fails to match; or `NotFound`
    /// when no pattern matches the path at all.
    pub fn resolve(&self, method: Method, path: &Vec<Vec<u8>>) -> (r: Resolution)
        requires
            self.wf(),
        ensures
            match r {
                Resolution::Found { handler, params } => resolves_to(
                    self.routes@,
                    method,
                    path@,
                    handler,
                    pairs_view(params@),
                ),
                Resolution::MethodNotAllowed => !any_route_matches(self.routes@, method, path@)
                    && any_pattern_matches(self.routes@, path@),
                Resolution::NotFound => !any_pattern_matches(self.routes@, path@),
            },
    {
        let ghost rs = self.routes@;
        let mut best: usize = 0;
        let mut have_best = false;
        let mut any_path = false;
        let mut idx: usize = 0;
        while idx < self.routes.len()
            invariant
                self.wf(),
                rs == self.routes@,
                idx <= rs.len(),
                have_best ==> best < idx && route_matches(rs, best as int, method, path@) && (
                forall|j: int|
                    #[trigger] route_matches(rs, j, method, path@) && j < idx ==> j == best as int
                        || beats(route_pat(rs[best as int]), route_pat(rs[j]))),
                !have_best ==> forall|j: int|
                    0 <= j < idx ==> !route_matches(rs, j, method, path@),
                any_path ==> any_pattern_matches(rs, path@),
                !any_path ==> forall|j: int|
                    0 <= j < idx ==> !pat_matches(route_pat(#[trigger] rs[j]), path@),
            decreases rs.len() - idx,
        {
            let rt = &self.routes[idx];
            if pat_matches_exec(&rt.pattern, path) {
                any_path = true;
                if rt.method == method {
                    if !have_best {
                        best = idx;
                        have_best = true;
                    } else {
                        let old_best = best;
                        if beats_exec(&rt.pattern, &self.routes[best].pattern) {
                            proof {
                                let np = route_pat(rs[idx as int]);
                                let bp = route_pat(rs[old_best as int]);
                                assert forall|j: int|
                                    #[trigger] route_matches(rs, j, method, path@) && j < idx + 1
                                        implies j == idx as int || beats(np, route_pat(rs[j])) by {
                                    if j < idx && j != old_best as int {
                                        lemma_beats_trans(np, bp, route_pat(rs[j]), 0);
                                    }
                                }
                            }
                            best = idx;
                        } else {
                            proof {
                                let np = route_pat(rs[idx as int]);
                                let bp = route_pat(rs[old_best as int]);
                                lemma_beats_total(bp, np, path@, 0);
                                if !beats(bp, np) {
                                    assert(same_shape(bp, np));
                                    assert(false);
                                }
                            }
                        }
                    }
                }
            }
            idx += 1;
        }
        if have_best {
            let rt = &self.routes[best];
            let params = extract_params(&rt.pattern, path);
            let r = Resolution::Found { handler: rt.handler, params };
            proof {
                assert(route_matches(rs, best as int, method, path@));
            }
            r
        } else if any_path {
            Resolution::MethodNotAllowed
        } else {
            Resolution::NotFound
        }
    }

    /// Mount a child router under a path prefix.  Every child route is
    /// re-registered with the prefix prepended to its pattern, so a mounted
    /// route is indistinguishable from one registered flat.  Fails, and
    /// leaves the router unchanged, exactly when a prefixed child route
    /// collides with an already registered one.
    pub fn nest(&mut self, prefix: &Vec<PatSeg>, child: Router) -> (r: Result<
        (),
        DuplicateRouteError,
    >)
        requires
            old(self).wf(),
            child.wf(),
        ensures
            final(self).wf(),
            match r {
                Ok(_) => {
                    let rs = final(self).routes@;
                    let pre = old(self).routes@;
                    let ch = child.routes@;
                    &&& !mount_conflict(pre, prefix@, ch)
                    &&& rs.len() == pre.len() + ch.len()
                    &&& forall|i: int| 0 <= i < pre.len() ==> rs[i] == pre[i]
                    &&& forall|k: int|
                        0 <= k < ch.len() ==> ((#[trigger] rs[pre.len() + k]).method == ch[k].method
                            && rs[pre.len() + k].handler == ch[k].handler && pat_view(
                            route_pat(rs[pre.len() + k]),
                        ) == pat_view(prefix@ + route_pat(ch[k])))
                },
                Err(_) => mount_conflict(old(self).routes@, prefix@, child.routes@)
                    && final(self).routes@ == old(self).routes@,
            },
    {
        let ghost pre = self.routes@;
        let ghost ch = child.routes@;
        // Build the prefixed copies of the child's routes.
        let mut adds: Vec<Route> = Vec::new();
        let mut k: usize = 0;
        while k < child.routes.len()
            invariant
                k <= ch.len(),
                ch == child.routes@,
                adds@.len() == k,
                forall|t: int|
                    0 <= t < k ==> ((#[trigger] adds@[t]).method == ch[t].method && adds@[t].handler
                        == ch[t].handler && pat_view(route_pat(adds@[t])) == pat_view(
                        prefix@ + route_pat(ch[t]),
                    )),
            decreases ch.len() - k,
        {
            let crt = &child.routes[k];
            let pat = concat_pattern(prefix, &crt.pattern);
            adds.push(Route { method: crt.method, pattern: pat, handler: crt.handler });
            k += 1;
        }
        // Check every prefixed route against the registered ones; nothing is
        // modified until all are known to be fresh.
        let mut k2: usize = 0;
        while k2 < adds.len()
            invariant
                k2 <= adds@.len(),
                pre == self.routes@,
                self.routes@ == old(self).routes@,
                ch == child.routes@,
                self.wf(),
                adds@.len() == ch.len(),
                forall|t: int|
                    0 <= t < ch.len() ==> ((#[trigger] adds@[t]).method == ch[t].method
                        && adds@[t].handler == ch[t].handler && pat_view(route_pat(adds@[t]))
                        == pat_view(prefix@ + route_pat(ch[t]))),
                forall|t: int|
                    0 <= t < k2 ==> !has_duplicate(pre, (#[trigger] adds@[t]).method, route_pat(
                        adds@[t],
                    )),
            decreases adds@.len() - k2,
        {
            let art = &adds[k2];
            if find_same(&self.routes, art.method, &art.pattern) {
                proof {
                    lemma_has_duplicate_view(
                        pre,
                        ch[k2 as int].method,
                        route_pat(adds@[k2 as int]),
                        prefix@ + route_pat(ch[k2 as int]),
                    );
                    assert(0 <= (k2 as int) && (k2 as int) < ch.len() && has_duplicate(
                        pre,
                        (ch[k2 as int]).method,
                        prefix@ + route_pat(ch[k2 as int]),
                    ));
                    assert(mount_conflict(pre, prefix@, ch));
                }
                return Err(DuplicateRouteError);
            }
            k2 += 1;
        }
        proof {
            // No prefixed child route collides with a registered one.
            assert forall|t: int| 0 <= t < ch.len() implies !has_duplicate(
                pre,
                (#[trigger] ch[t]).method,
                prefix@ + route_pat(ch[t]),
            ) by {
                lemma_has_duplicate_view(
                    pre,
                    ch[t].method,
                    route_pat(adds@[t]),
                    prefix@ + route_pat(ch[t]),
                );
            }
            // Distinct child routes stay distinct once prefixed.
            assert forall|t: int, u: int|
                0 <= t < u < ch.len() && adds@[t].method == adds@[u].method implies !same_shape(
                route_pat(adds@[t]),
                route_pat(adds@[u]),
            ) by {
                lemma_same_shape_prefix(prefix@, route_pat(ch[t]), route_pat(ch[u]));
                lemma_same_shape_view(
                    prefix@ + route_pat(ch[t]),
                    prefix@ + route_pat(ch[u]),
                    route_pat(adds@[t]),
                    route_pat(adds@[u]),
                );
            }
        }
        let ghost addsv = adds@;
        self.routes.append(&mut adds);
        proof {
            let rs = self.routes@;
            assert forall|i: int, j: int| 0 <= i < j < rs.len() implies !((#[trigger] rs[i]).method
                == (#[trigger] rs[j]).method && same_shape(route_pat(rs[i]), route_pat(rs[j]))) by {
                if j < pre.len() {
                    assert(rs[i] == pre[i] && rs[j] == pre[j]);
                } else if i < pre.len() {
                    assert(rs[i] == pre[i] && rs[j] == addsv[j - pre.len()]);
                    assert(!has_duplicate(pre, addsv[j - pre.len()].method, route_pat(
                        addsv[j - pre.len()],
                    )));
                } else {
                    assert(rs[i] == addsv[i - pre.len()] && rs[j] == addsv[j - pre.len()]);
                }
            }
        }
        Ok(())
    }
}

/// Byte-string equality.
fn bytes_eq(a: &Vec<u8>, b: &Vec<u8>) -> (r: bool)
    ensures
        r == (a@ == b@),
{
    if a.len() != b.len() {
        return false;
    }
    let mut i: usize = 0;
    while i < a.len()
        invariant
            i <= a@.len(),
            a@.len() == b@.len(),
            forall|k: int| 0 <= k < i ==> a@[k] == b@[k],
        decreases a@.len() - i,
    {
        if a[i] != b[i] {
            return false;
        }
        i += 1;
    }
    proof {
        assert(a@ =~= b@);
    }
    true
}

/// Whether this segment is a parameter.
fn is_param(s: &PatSeg) -> (r: bool)
    ensures
        r == s@.0,
{
    matches!(s, PatSeg::Param(_))
}

/// Whether one pattern segment matches one concrete path segment.
fn seg_matches_exec(seg: &PatSeg, actual: &Vec<u8>) -> (r: bool)
    ensures
        r == seg_matches(*seg, *actual),
{
    match seg {
        PatSeg::Param(_) => true,
        PatSeg::Lit(b) => bytes_eq(b, actual),
    }
}

/// Whether a pattern matches a path.
fn pat_matches_exec(pat: &Vec<PatSeg>, path: &Vec<Vec<u8>>) -> (r: bool)
    ensures
        r == pat_matches(pat@, path@),
{
    if pat.len() != path.len() {
        return false;
    }
    let mut i: usize = 0;
    while i < pat.len()
        invariant
            i <= pat@.len(),
            pat@.len() == path@.len(),
            forall|k: int| 0 <= k < i ==> seg_matches(#[trigger] pat@[k], path@[k]),
        decreases pat@.len() - i,
    {
        if !seg_matches_exec(&pat[i], &path[i]) {
            return false;
        }
        i += 1;
    }
    true
}

/// Whether two patterns have the same shape.
fn same_shape_exec(a: &Vec<PatSeg>, b: &Vec<PatSeg>) -> (r: bool)
    ensures
        r == same_shape(a@, b@),
{
    if a.len() != b.len() {
        return false;
    }
    let mut i: usize = 0;
    while i < a.len()
        invariant
            i <= a@.len(),
            a@.len() == b@.len(),
            forall|k: int|
                0 <= k < i ==> ((#[trigger] a@[k])@.0 == b@[k]@.0 && (!a@[k]@.0 ==> a@[k]@.1
                    == b@[k]@.1)),
        decreases a@.len() - i,
    {
        let ok = match (&a[i], &b[i]) {
            (PatSeg::Lit(x), PatSeg::Lit(y)) => bytes_eq(x, y),
            (PatSeg::Param(_), PatSeg::Param(_)) => true,
            _ => false,
        };
        if !ok {
            return false;
        }
        i += 1;
    }
    true
}

/// Whether pattern `a` takes precedence over pattern `b`.
fn beats_exec(a: &Vec<PatSeg>, b: &Vec<PatSeg>) -> (r: bool)
    ensures
        r == beats(a@, b@),
{
    let mut i: usize = 0;
    while i < a.len() && i < b.len()
        invariant
            beats(a@, b@) == beats_from(a@, b@, i as int),
        decreases a@.len() - i,
    {
        let pa = is_param(&a[i]);
        let pb = is_param(&b[i]);
        if pa != pb {
            return !pa;
        }
        proof {
            assert(beats_from(a@, b@, i as int) == beats_from(a@, b@, i as int + 1));
        }
        i += 1;
    }
    false
}

/// Copy a byte string.
fn copy_bytes(b: &Vec<u8>) -> (r: Vec<u8>)
    ensures
        r@ == b@,
{
    let mut out: Vec<u8> = Vec::new();
    let mut i: usize = 0;
    while i < b.len()
        invariant
            i <= b@.len(),
            out@ == b@.subrange(0, i as int),
        decreases b@.len() - i,
    {
        out.push(b[i]);
        i += 1;
        proof {
            assert(out@ =~= b@.subrange(0, i as int));
        }
    }
    proof {
        assert(out@ =~= b@);
    }
    out
}

/// Extract the parameter bindings of a pattern that matches a path.
fn extract_params(pat: &Vec<PatSeg>, path: &Vec<Vec<u8>>) -> (r: Vec<(Vec<u8>, Vec<u8>)>)
    requires
        pat@.len() == path@.len(),
    ensures
        pairs_view(r@) == bindings(pat@, path@),
{
    let mut out: Vec<(Vec<u8>, Vec<u8>)> = Vec::new();
    let mut i: usize = 0;
    proof {
        assert(pairs_view(out@) + bindings_from(pat@, path@, 0) =~= bindings(pat@, path@));
    }
    while i < pat.len()
        invariant
            i <= pat@.len(),
            pat@.len() == path@.len(),
            bindings(pat@, path@) == pairs_view(out@) + bindings_from(pat@, path@, i as int),
        decreases pat@.len() - i,
    {
        let ghost pre = out@;
        match &pat[i] {
            PatSeg::Param(name) => {
                let n = copy_bytes(name);
                let v = copy_bytes(&path[i]);
                out.push((n, v));
                proof {
                    assert(pairs_view(out@) =~= pairs_view(pre) + seq![
                        (pat@[i as int]@.1, path@[i as int]@),
                    ]);
                    assert(pairs_view(out@) + bindings_from(pat@, path@, i as int + 1)
                        =~= pairs_view(pre) + bindings_from(pat@, path@, i as int));
                }
            },
            PatSeg::Lit(_) => {
                proof {
                    assert(bindings_from(pat@, path@, i as int) == bindings_from(
                        pat@,
                        path@,
                        i as int + 1,
                    ));
                }
            },
        }
        i += 1;
    }
    proof {
        assert(pairs_view(out@) =~= bindings(pat@, path@));
    }
    out
}

/// The three precedence lemmas: on patterns of equal length that match one
/// path, precedence is total up to shape equality, transitive, and
/// asymmetric, so the preferred route is unique.

/// Totality: two patterns matching the same path either agree in shape from
/// position `i` on, or one takes precedence over the other.
proof fn lemma_beats_total(a: Seq<PatSeg>, b: Seq<PatSeg>, path: Seq<Vec<u8>>, i: int)
    requires
        pat_matches(a, path),
        pat_matches(b, path),
        a.len() == b.len(),
        0 <= i <= a.len(),
    ensures
        beats_from(a, b, i) || beats_from(b, a, i) || (forall|j: int|
            i <= j < a.len() ==> ((#[trigger] a[j])@.0 == b[j]@.0 && (!a[j]@.0 ==> a[j]@.1
                == b[j]@.1))),
    decreases a.len() - i,
{
    if i < a.len() {
        lemma_beats_total(a, b, path, i + 1);
        assert(seg_matches(a[i], path[i]));
        assert(seg_matches(b[i], path[i]));
    }
}

/// Transitivity of precedence.
proof fn lemma_beats_trans(a: Seq<PatSeg>, b: Seq<PatSeg>, c: Seq<PatSeg>, i: int)
    requires
        a.len() == b.len(),
        b.len() == c.len(),
        0 <= i,
        beats_from(a, b, i),
        beats_from(b, c, i),
    ensures
        beats_from(a, c, i),
    decreases a.len() - i,
{
    if i < a.len() {
        if a[i]@.0 == b[i]@.0 && b[i]@.0 == c[i]@.0 {
            lemma_beats_trans(a, b, c, i + 1);
        }
    }
}

/// Asymmetry of precedence.
proof fn lemma_beats_asym(a: Seq<PatSeg>, b: Seq<PatSeg>, i: int)
    requires
        0 <= i,
        beats_from(a, b, i),
    ensures
        !beats_from(b, a, i),
    decreases a.len() - i,
{
    if i < a.len() && i < b.len() {
        if a[i]@.0 == b[i]@.0 {
            lemma_beats_asym(a, b, i + 1);
        }
    }
}

/// Resolution is deterministic: on a well-formed route set, any two
/// resolutions of one request return the same handler and the same
/// parameter bindings, so each request is answered by exactly the route
/// registered for it.
pub proof fn lemma_resolution_unique(
    rs: Seq<Route>,
    m: Method,
    path: Seq<Vec<u8>>,
    h1: u64,
    p1: Seq<(Seq<u8>, Seq<u8>)>,
    h2: u64,
    p2: Seq<(Seq<u8>, Seq<u8>)>,
)
    requires
        routes_wf(rs),
        resolves_to(rs, m, path, h1, p1),
        resolves_to(rs, m, path, h2, p2),
    ensures
        h1 == h2,
        p1 == p2,
{
    let i1 = choose|i: int|
        {
            &&& #[trigger] route_matches(rs, i, m, path)
            &&& rs[i].handler == h1
            &&& p1 == bindings(route_pat(rs[i]), path)
            &&& forall|j: int|
                #[trigger] route_matches(rs, j, m, path) ==> j == i || beats(
                    route_pat(rs[i]),
                    route_pat(rs[j]),
                )
        };
    let i2 = choose|i: int|
        {
            &&& #[trigger] route_matches(rs, i, m, path)
            &&& rs[i].handler == h2
            &&& p2 == bindings(route_pat(rs[i]), path)
            &&& forall|j: int|
                #[trigger] route_matches(rs, j, m, path) ==> j == i || beats(
                    route_pat(rs[i]),
                    route_pat(rs[j]),
                )
        };
    if i1 != i2 {
        assert(route_matches(rs, i1, m, path));
        assert(route_matches(rs, i2, m, path));
        assert(beats(route_pat(rs[i1]), route_pat(rs[i2])));
        lemma_beats_asym(route_pat(rs[i1]), route_pat(rs[i2]), 0);
    }
}

/// Registering the same (method, pattern) pair twice fails: once a route
/// with this method and shape has been pushed, the route set reports a
/// duplicate for any equivalent pattern, so by `register`'s contract a
/// second registration returns `DuplicateRouteError` and changes nothing.
pub proof fn lemma_register_twice_fails(
    rs: Seq<Route>,
    method: Method,
    pattern: Vec<PatSeg>,
    handler: u64,
)
    ensures
        has_duplicate(rs.push(Route { method, pattern, handler }), method, pattern@),
{
    let rs2 = rs.push(Route { method, pattern, handler });
    assert(rs2[rs.len() as int].method == method);
    assert(same_shape(route_pat(rs2[rs.len() as int]), pattern@));
}

proof fn lemma_pat_matches_view(a: Seq<PatSeg>, a2: Seq<PatSeg>, path: Seq<Vec<u8>>)
    requires
        pat_view(a) == pat_view(a2),
    ensures
        pat_matches(a, path) == pat_matches(a2, path),
{
    assert(a.len() == a2.len()) by {
        assert(pat_view(a).len() == a.len());
        assert(pat_view(a2).len() == a2.len());
    }
    assert forall|i: int| 0 <= i < a.len() implies a[i]@ == a2[i]@ by {
        assert(pat_view(a)[i] == a[i]@);
        assert(pat_view(a2)[i] == a2[i]@);
    }
    if pat_matches(a, path) {
        assert forall|i: int| 0 <= i < a2.len() implies seg_matches(#[trigger] a2[i], path[i]) by {
            assert(seg_matches(a[i], path[i]));
        }
    }
    if pat_matches(a2, path) {
        assert forall|i: int| 0 <= i < a.len() implies seg_matches(#[trigger] a[i], path[i]) by {
            assert(seg_matches(a2[i], path[i]));
        }
    }
}

proof fn lemma_beats_view(a: Seq<PatSeg>, b: Seq<PatSeg>, a2: Seq<PatSeg>, b2: Seq<PatSeg>, i: int)
    requires
        pat_view(a) == pat_view(a2),
        pat_view(b) == pat_view(b2),
    ensures
        beats_from(a, b, i) == beats_from(a2, b2, i),
    decreases a.len() - i,
{
    assert(a.len() == a2.len()) by {
        assert(pat_view(a).len() == a.len());
        assert(pat_view(a2).len() == a2.len());
    }
    assert(b.len() == b2.len()) by {
        assert(pat_view(b).len() == b.len());
        assert(pat_view(b2).len() == b2.len());
    }
    if 0 <= i && i < a.len() && i < b.len() {
        assert(a[i]@ == a2[i]@) by {
            assert(pat_view(a)[i] == a[i]@);
            assert(pat_view(a2)[i] == a2[i]@);
        }
        assert(b[i]@ == b2[i]@) by {
            assert(pat_view(b)[i] == b[i]@);
            assert(pat_view(b2)[i] == b2[i]@);
        }
        if a[i]@.0 == b[i]@.0 {
            lemma_beats_view(a, b, a2, b2, i + 1);
        }
    }
}

proof fn lemma_bindings_view(a: Seq<PatSeg>, a2: Seq<PatSeg>, path: Seq<Vec<u8>>, i: int)
    requires
        pat_view(a) == pat_view(a2),
    ensures
        bindings_from(a, path, i) == bindings_from(a2, path, i),
    decreases a.len() - i,
{
    assert(a.len() == a2.len()) by {
        assert(pat_view(a).len() == a.len());
        assert(pat_view(a2).len() == a2.len());
    }
    if 0 <= i && i < a.len() && i < path.len() {
        assert(a[i]@ == a2[i]@) by {
            assert(pat_view(a)[i] == a[i]@);
            assert(pat_view(a2)[i] == a2[i]@);
        }
        lemma_bindings_view(a, a2, path, i + 1);
    }
}

/// Resolution reads only a route's method, handler, and pattern view, so
/// two route sets that agree on those — a mounted child and the same
/// routes registered flat — resolve every request alike.
pub proof fn lemma_resolution_depends_on_views(
    rs1: Seq<Route>,
    rs2: Seq<Route>,
    m: Method,
    path: Seq<Vec<u8>>,
    handler: u64,
    params: Seq<(Seq<u8>, Seq<u8>)>,
)
    requires
        rs1.len() == rs2.len(),
        forall|i: int|
            0 <= i < rs1.len() ==> ((#[trigger] rs1[i]).method == rs2[i].method && rs1[i].handler
                == rs2[i].handler && pat_view(route_pat(rs1[i])) == pat_view(route_pat(rs2[i]))),
        resolves_to(rs1, m, path, handler, params),
    ensures
        resolves_to(rs2, m, path, handler, params),
{
    assert forall|i: int| 0 <= i < rs1.len() implies (pat_matches(route_pat(#[trigger] rs1[i]), path)
        == pat_matches(route_pat(rs2[i]), path)) by {
        lemma_pat_matches_view(route_pat(rs1[i]), route_pat(rs2[i]), path);
    }
    let i = choose|i: int|
        {
            &&& #[trigger] route_matches(rs1, i, m, path)
            &&& rs1[i].handler == handler
            &&& params == bindings(route_pat(rs1[i]), path)
            &&& forall|j: int|
                #[trigger] route_matches(rs1, j, m, path) ==> j == i || beats(
                    route_pat(rs1[i]),
                    route_pat(rs1[j]),
                )
        };
    assert(route_matches(rs2, i, m, path));
    lemma_bindings_view(route_pat(rs1[i]), route_pat(rs2[i]), path, 0);
    assert forall|j: int| #[trigger] route_matches(rs2, j, m, path) implies j == i || beats(
        route_pat(rs2[i]),
        route_pat(rs2[j]),
    ) by {
        assert(route_matches(rs1, j, m, path));
        if j != i {
            lemma_beats_view(route_pat(rs1[i]), route_pat(rs1[j]), route_pat(rs2[i]), route_pat(
                rs2[j],
            ), 0);
        }
    }
}

/// Shape comparison only reads the segments' views, so patterns with equal
/// views compare alike.
proof fn lemma_same_shape_view(a: Seq<PatSeg>, b: Seq<PatSeg>, a2: Seq<PatSeg>, b2: Seq<PatSeg>)
    requires
        pat_view(a) == pat_view(a2),
        pat_view(b) == pat_view(b2),
    ensures
        same_shape(a, b) == same_shape(a2, b2),
{
    assert(a.len() == a2.len()) by {
        assert(pat_view(a).len() == a.len());
        assert(pat_view(a2).len() == a2.len());
    }
    assert(b.len() == b2.len()) by {
        assert(pat_view(b).len() == b.len());
        assert(pat_view(b2).len() == b2.len());
    }
    assert forall|i: int| 0 <= i < a.len() implies a[i]@ == a2[i]@ by {
        assert(pat_view(a)[i] == a[i]@);
        assert(pat_view(a2)[i] == a2[i]@);
    }
    assert forall|i: int| 0 <= i < b.len() implies b[i]@ == b2[i]@ by {
        assert(pat_view(b)[i] == b[i]@);
        assert(pat_view(b2)[i] == b2[i]@);
    }
    if same_shape(a, b) {
        assert forall|i: int| 0 <= i < a2.len() implies ((#[trigger] a2[i])@.0 == b2[i]@.0 && (
        !a2[i]@.0 ==> a2[i]@.1 == b2[i]@.1)) by {
            assert(a[i]@.0 == b[i]@.0 && (!a[i]@.0 ==> a[i]@.1 == b[i]@.1));
        }
    }
    if same_shape(a2, b2) {
        assert forall|i: int| 0 <= i < a.len() implies ((#[trigger] a[i])@.0 == b[i]@.0 && (
        !a[i]@.0 ==> a[i]@.1 == b[i]@.1)) by {
            assert(a2[i]@.0 == b2[i]@.0 && (!a2[i]@.0 ==> a2[i]@.1 == b2[i]@.1));
        }
    }
}

/// Prepending one prefix to two patterns neither creates nor removes a
/// shape collision.
proof fn lemma_same_shape_prefix(p: Seq<PatSeg>, a: Seq<PatSeg>, b: Seq<PatSeg>)
    ensures
        same_shape(p + a, p + b) == same_shape(a, b),
{
    if same_shape(a, b) {
        assert forall|i: int| 0 <= i < (p + a).len() implies ((#[trigger] (p + a)[i])@.0 == (p
            + b)[i]@.0 && (!(p + a)[i]@.0 ==> (p + a)[i]@.1 == (p + b)[i]@.1)) by {
            if i < p.len() {
                assert((p + a)[i] == p[i]);
                assert((p + b)[i] == p[i]);
            } else {
                assert((p + a)[i] == a[i - p.len()]);
                assert((p + b)[i] == b[i - p.len()]);
                assert(a[i - p.len()]@.0 == b[i - p.len()]@.0 && (!a[i - p.len()]@.0 ==> a[i
                    - p.len()]@.1 == b[i - p.len()]@.1));
            }
        }
    }
    if same_shape(p + a, p + b) {
        assert forall|i: int| 0 <= i < a.len() implies ((#[trigger] a[i])@.0 == b[i]@.0 && (
        !a[i]@.0 ==> a[i]@.1 == b[i]@.1)) by {
            assert((p + a)[p.len() + i] == a[i]);
            assert((p + b)[p.len() + i] == b[i]);
            assert((p + a)[p.len() + i]@.0 == (p + b)[p.len() + i]@.0 && (!(p + a)[p.len()
                + i]@.0 ==> (p + a)[p.len() + i]@.1 == (p + b)[p.len() + i]@.1));
        }
    }
}

/// Duplicate detection only reads pattern views.
proof fn lemma_has_duplicate_view(rs: Seq<Route>, m: Method, p1: Seq<PatSeg>, p2: Seq<PatSeg>)
    requires
        pat_view(p1) == pat_view(p2),
    ensures
        has_duplicate(rs, m, p1) == has_duplicate(rs, m, p2),
{
    assert forall|i: int| 0 <= i < rs.len() implies (same_shape(route_pat(#[trigger] rs[i]), p1)
        == same_shape(route_pat(rs[i]), p2)) by {
        lemma_same_shape_view(route_pat(rs[i]), p1, route_pat(rs[i]), p2);
    }
    if has_duplicate(rs, m, p1) {
        let i = choose|i: int|
            0 <= i < rs.len() && (#[trigger] rs[i]).method == m && same_shape(
                route_pat(rs[i]),
                p1,
            );
        assert(0 <= i < rs.len() && rs[i].method == m && same_shape(route_pat(rs[i]), p2));
    }
    if has_duplicate(rs, m, p2) {
        let i = choose|i: int|
            0 <= i < rs.len() && (#[trigger] rs[i]).method == m && same_shape(
                route_pat(rs[i]),
                p2,
            );
        assert(0 <= i < rs.len() && rs[i].method == m && same_shape(route_pat(rs[i]), p1));
    }
}

/// Copy one pattern segment.
fn copy_seg(s: &PatSeg) -> (r: PatSeg)
    ensures
        r@ == s@,
{
    match s {
        PatSeg::Lit(b) => PatSeg::Lit(copy_bytes(b)),
        PatSeg::Param(n) => PatSeg::Param(copy_bytes(n)),
    }
}

/// The concatenation of two patterns, as a fresh vector.
fn concat_pattern(prefix: &Vec<PatSeg>, tailp: &Vec<PatSeg>) -> (r: Vec<PatSeg>)
    ensures
        pat_view(r@) == pat_view(prefix@ + tailp@),
{
    let mut out: Vec<PatSeg> = Vec::new();
    let mut i: usize = 0;
    while i < prefix.len()
        invariant
            i <= prefix@.len(),
            out@.len() == i,
            forall|t: int| 0 <= t < i ==> (#[trigger] out@[t])@ == prefix@[t]@,
        decreases prefix@.len() - i,
    {
        out.push(copy_seg(&prefix[i]));
        i += 1;
    }
    let mut j: usize = 0;
    while j < tailp.len()
        invariant
            j <= tailp@.len(),
            out@.len() == prefix@.len() + j,
            forall|t: int| 0 <= t < prefix@.len() ==> (#[trigger] out@[t])@ == prefix@[t]@,
            forall|t: int|
                0 <= t < j ==> (#[trigger] out@[prefix@.len() + t])@ == tailp@[t]@,
        decreases tailp@.len() - j,
    {
        out.push(copy_seg(&tailp[j]));
        j += 1;
    }
    proof {
        assert forall|t: int| 0 <= t < out@.len() implies pat_view(out@)[t] == pat_view(
            prefix@ + tailp@,
        )[t] by {
            if t < prefix@.len() {
                assert((prefix@ + tailp@)[t] == prefix@[t]);
            } else {
                assert((prefix@ + tailp@)[t] == tailp@[t - prefix@.len()]);
                assert(out@[prefix@.len() + (t - prefix@.len())]@ == tailp@[t - prefix@.len()]@);
            }
        }
        assert(pat_view(out@) =~= pat_view(prefix@ + tailp@));
    }
    out
}

/// Whether `routes` already holds a route with this method and this pattern
/// shape.
fn find_same(routes: &Vec<Route>, method: Method, pat: &Vec<PatSeg>) -> (r: bool)
    ensures
        r == has_duplicate(routes@, method, pat@),
{
    let mut i: usize = 0;
    while i < routes.len()
        invariant
            i <= routes@.len(),
            forall|k: int|
                0 <= k < i ==> !((#[trigger] routes@[k]).method == method && same_shape(
                    route_pat(routes@[k]),
                    pat@,
                )),
        decreases routes@.len() - i,
    {
        let rt = &routes[i];
        if rt.method == method {
            if same_shape_exec(&rt.pattern, pat) {
                return true;
            }
        }
        i += 1;
    }
    false
}

/// The index of the first slash of `s` at or after position `i`, or the
/// length of `s` when there is none.
pub open spec fn next_slash(s: Seq<u8>, i: int) -> int
    decreases s.len() - i,
{
    if i < 0 || i >= s.len() {
        s.len() as int
    } else if s[i] == 47 {
        i
    } else {
        next_slash(s, i + 1)
    }
}

proof fn lemma_next_slash_bounds(s: Seq<u8>, i: int)
    requires
        0 <= i <= s.len(),
    ensures
        i <= next_slash(s, i) <= s.len(),
        next_slash(s, i) < s.len() ==> s[next_slash(s, i)] == 47,
        forall|k: int| i <= k < next_slash(s, i) ==> s[k] != 47,
    decreases s.len() - i,
{
    if i < s.len() && s[i] != 47 {
        lemma_next_slash_bounds(s, i + 1);
    }
}

/// The first slash at or after `a` stands exactly at `j` when no slash
/// comes before it.
proof fn lemma_next_slash_at(s: Seq<u8>, a: int, j: int)
    requires
        0 <= a <= j <= s.len(),
        forall|k: int| a <= k < j ==> s[k] != 47,
        j == s.len() || s[j] == 47,
    ensures
        next_slash(s, a) == j,
    decreases j - a,
{
    if a < j {
        lemma_next_slash_at(s, a + 1, j);
    }
}

/// The '/'-separated segments of `s` from position `i` on: the run up to
/// the next slash, then the segments after it.  A trailing slash yields a
/// final empty segment.
pub open spec fn segments_from(s: Seq<u8>, i: int) -> Seq<Seq<u8>>
    decreases s.len() - i + 1,
    via segments_from_dec
{
    if i < 0 || i > s.len() {
        Seq::empty()
    } else {
        let j = next_slash(s, i);
        if j == s.len() {
            seq![s.subrange(i, j)]
        } else {
            seq![s.subrange(i, j)] + segments_from(s, j + 1)
        }
    }
}

#[via_fn]
proof fn segments_from_dec(s: Seq<u8>, i: int) {
    if 0 <= i <= s.len() {
        lemma_next_slash_bounds(s, i);
    }
}

/// The segments of a request path: one leading slash is not part of any
/// segment.
pub open spec fn path_segments(p: Seq<u8>) -> Seq<Seq<u8>> {
    if p.len() > 0 && p[0] == 47 {
        segments_from(p, 1)
    } else {
        segments_from(p, 0)
    }
}

/// The segment list of a split path, as byte sequences.
pub open spec fn segs_view(s: Seq<Vec<u8>>) -> Seq<Seq<u8>> {
    Seq::new(s.len(), |i: int| s[i]@)
}

/// Split a raw path like "/product/update/42" into its segments.
pub fn split_path(p: &Vec<u8>) -> (r: Vec<Vec<u8>>)
    ensures
        segs_view(r@) == path_segments(p@),
{
    let mut out: Vec<Vec<u8>> = Vec::new();
    let mut cur: Vec<u8> = Vec::new();
    let start: usize = if p.len() > 0 && p[0] == 47 {
        1
    } else {
        0
    };
    let ghost base: int = start as int;
    let ghost mut seg_start: int = start as int;
    let mut i = start;
    while i < p.len()
        invariant
            base == (if p@.len() > 0 && p@[0] == 47 {
                1int
            } else {
                0int
            }),
            base <= seg_start <= i <= p@.len(),
            cur@ == p@.subrange(seg_start, i as int),
            forall|k: int| seg_start <= k < i ==> p@[k] != 47,
            segments_from(p@, base) == segs_view(out@) + segments_from(p@, seg_start),
        decreases p@.len() - i,
    {
        let c = p[i];
        if c == 47 {
            let ghost outpre = out@;
            out.push(cur);
            cur = Vec::new();
            proof {
                lemma_next_slash_at(p@, seg_start, i as int);
                assert(segments_from(p@, seg_start) == seq![p@.subrange(seg_start, i as int)]
                    + segments_from(p@, i as int + 1));
                assert(segs_view(out@) =~= segs_view(outpre) + seq![
                    p@.subrange(seg_start, i as int),
                ]);
                assert(segs_view(out@) + segments_from(p@, i as int + 1) =~= segs_view(outpre)
                    + segments_from(p@, seg_start));
                seg_start = i as int + 1;
            }
        } else {
            cur.push(c);
            proof {
                assert(cur@ =~= p@.subrange(seg_start, i as int + 1));
            }
        }
        i += 1;
    }
    let ghost outpre = out@;
    out.push(cur);
    proof {
        lemma_next_slash_at(p@, seg_start, p@.len() as int);
        assert(segments_from(p@, seg_start) == seq![p@.subrange(seg_start, p@.len() as int)]);
        assert(segs_view(out@) =~= segs_view(outpre) + segments_from(p@, seg_start));
        assert(segs_view(out@) =~= segments_from(p@, base));
    }
    out
}

/// How one path segment reads as a pattern segment: a leading colon marks a
/// parameter named by the rest; anything else is a literal.
pub open spec fn seg_to_pat(seg: Seq<u8>) -> (bool, Seq<u8>) {
    if seg.len() > 0 && seg[0] == 58 {
        (true, seg.subrange(1, seg.len() as int))
    } else {
        (false, seg)
    }
}

/// The byte string after the first byte.
fn tail_bytes(b: &Vec<u8>) -> (r: Vec<u8>)
    requires
        b@.len() >= 1,
    ensures
        r@ == b@.subrange(1, b@.len() as int),
{
    let mut out: Vec<u8> = Vec::new();
    let mut i: usize = 1;
    while i < b.len()
        invariant
            1 <= i <= b@.len(),
            out@ == b@.subrange(1, i as int),
        decreases b@.len() - i,
    {
        out.push(b[i]);
        i += 1;
        proof {
            assert(out@ =~= b@.subrange(1, i as int));
        }
    }
    proof {
        assert(out@ =~= b@.subrange(1, b@.len() as int));
    }
    out
}

/// Parse a raw pattern like "/product/update/:id" into pattern segments:
/// split it like a path, then read each segment.
pub fn parse_pattern(p: &Vec<u8>) -> (r: Vec<PatSeg>)
    ensures
        r@.len() == path_segments(p@).len(),
        forall|k: int|
            0 <= k < r@.len() ==> (#[trigger] r@[k])@ == seg_to_pat(path_segments(p@)[k]),
{
    let segs = split_path(p);
    let mut out: Vec<PatSeg> = Vec::new();
    let mut i: usize = 0;
    while i < segs.len()
        invariant
            i <= segs@.len(),
            segs_view(segs@) == path_segments(p@),
            out@.len() == i,
            forall|k: int|
                0 <= k < i ==> (#[trigger] out@[k])@ == seg_to_pat(path_segments(p@)[k]),
        decreases segs@.len() - i,
    {
        let s = &segs[i];
        proof {
            assert(segs_view(segs@)[i as int] == segs@[i as int]@);
        }
        if s.len() > 0 && s[0] == 58 {
            out.push(PatSeg::Param(tail_bytes(s)));
        } else {
            out.push(PatSeg::Lit(copy_bytes(s)));
        }
        i += 1;
    }
    out
}

} // verus!
