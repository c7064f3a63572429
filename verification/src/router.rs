//! The router: an ordered, append-only registry of routes, and resolution
//! of a concrete request path to the first registered route that matches,
//! with the captured variable values bound by name.

use vstd::prelude::*;
use crate::compiler::PatternError;
use crate::compiler::compile_matcher;
use crate::compiler::extract_variable_positions;
use crate::regexes::Matcher;
use crate::regexes::regex_compiles;
use crate::regexes::regex_is_match;
use crate::regexes::regex_captures;
use crate::table::VarTable;
use crate::table::table_of;
use crate::tokens::matcher_source;
use crate::tokens::token_seq;

verus! {

/// One registered route: the pattern as registered, the matcher compiled
/// from it, its variable table, and the caller-supplied handler.
pub struct Route<H> {
    path: String,
    matcher: Matcher,
    variables: VarTable,
    handler: H,
}

impl<H> Route<H> {
    /// The pattern string as registered.
    pub closed spec fn spec_path(&self) -> Seq<char> {
        self.path@
    }

    /// The variable table: name with sigil, mapped to capture position.
    pub closed spec fn spec_variables(&self) -> Seq<(Seq<char>, int)> {
        self.variables@
    }

    /// The handler as registered.
    pub closed spec fn spec_handler(&self) -> H {
        self.handler
    }

    #[verifier::type_invariant]
    spec fn wf(&self) -> bool {
        &&& self.matcher.src() == matcher_source(self.path@)
        &&& regex_compiles(matcher_source(self.path@))
        &&& self.variables@ == table_of(token_seq(self.path@))
    }

    /// The pattern string as registered.
    pub fn path(&self) -> (r: &String)
        ensures
            r@ == self.spec_path(),
    {
        &self.path
    }

    /// The route's variable table.
    pub fn variables(&self) -> (r: &VarTable)
        ensures
            r@ == self.spec_variables(),
    {
        &self.variables
    }

    /// The route's handler.
    pub fn handler(&self) -> (r: &H)
        ensures
            *r == self.spec_handler(),
    {
        &self.handler
    }
}

/// Whether the route's matcher matches the concrete path.
pub open spec fn route_matches<H>(r: Route<H>, path: Seq<char>) -> bool {
    regex_is_match(matcher_source(r.spec_path()), path)
}

/// The text bound to a capture position: the group's capture, or empty when
/// the matcher has no such group or the group did not participate.
pub open spec fn cap_text(caps: Seq<Option<Seq<char>>>, pos: int) -> Seq<char> {
    if 0 <= pos < caps.len() {
        match caps[pos] {
            Some(s) => s,
            None => Seq::empty(),
        }
    } else {
        Seq::empty()
    }
}

/// The bindings produced when `r` resolves `path`: each table entry's name,
/// bound to the capture at the entry's position.
pub open spec fn bindings_of<H>(r: Route<H>, path: Seq<char>) -> Seq<(Seq<char>, Seq<char>)> {
    r.spec_variables().map(
        |i: int, e: (Seq<char>, int)|
            (e.0, cap_text(regex_captures(matcher_source(r.spec_path()), path), e.1)),
    )
}

/// The index of the first route at or after `i` that matches `path`.
pub open spec fn first_match_from<H>(routes: Seq<Route<H>>, path: Seq<char>, i: int) -> Option<
    int,
>
    decreases routes.len() - i,
{
    if i < 0 || i >= routes.len() {
        None
    } else if route_matches(routes[i], path) {
        Some(i)
    } else {
        first_match_from(routes, path, i + 1)
    }
}

/// The index of the first registered route that matches `path`.
pub open spec fn first_match<H>(routes: Seq<Route<H>>, path: Seq<char>) -> Option<int> {
    first_match_from(routes, path, 0)
}

/// Ghost description of a resolution outcome: the index of the matched
/// route and the bindings.
pub ghost struct MatchV {
    pub idx: int,
    pub bindings: Seq<(Seq<char>, Seq<char>)>,
}

/// What resolving `path` against `routes` yields: a function of the
/// registered routes and the path alone.
pub open spec fn match_view<H>(routes: Seq<Route<H>>, path: Seq<char>) -> Option<MatchV> {
    match first_match(routes, path) {
        Some(j) => Some(MatchV { idx: j, bindings: bindings_of(routes[j], path) }),
        None => None,
    }
}

/// The value bound to `name`, if the name is bound.
pub open spec fn lookup_binding(m: Seq<(Seq<char>, Seq<char>)>, name: Seq<char>) -> Option<
    Seq<char>,
>
    decreases m.len(),
{
    if m.len() == 0 {
        None
    } else if m[0].0 == name {
        Some(m[0].1)
    } else {
        lookup_binding(m.skip(1), name)
    }
}

/// The name-to-value mapping captured by a successful resolution.
pub struct Bindings {
    entries: Vec<(String, String)>,
}

impl View for Bindings {
    type V = Seq<(Seq<char>, Seq<char>)>;

    closed spec fn view(&self) -> Seq<(Seq<char>, Seq<char>)> {
        Seq::new(self.entries@.len(), |i: int| (self.entries@[i].0@, self.entries@[i].1@))
    }
}

impl Bindings {
    /// Number of bound names.
    pub fn len(&self) -> (r: usize)
        ensures
            r == self@.len(),
    {
        self.entries.len()
    }

    /// The value bound to `name`, if any.
    pub fn get(&self, name: &String) -> (r: Option<&String>)
        ensures
            match r {
                Some(v) => lookup_binding(self@, name@) == Some(v@),
                None => lookup_binding(self@, name@) is None,
            },
    {
        let n = self.entries.len();
        let mut k: usize = 0;
        while k < n
            invariant
                k <= n,
                n == self.entries@.len(),
                forall|i: int| 0 <= i < k ==> self@[i].0 != name@,
            decreases n - k,
        {
            if self.entries[k].0 == *name {
                proof {
                    lemma_lookup_binding_found(self@, name@, k as int);
                }
                return Some(&self.entries[k].1);
            }
            k = k + 1;
        }
        proof {
            lemma_lookup_binding_absent(self@, name@);
        }
        None
    }
}

/// The outcome of a successful resolution: the matched route, borrowed from
/// the router, and the bindings captured from the path.
pub struct MatchResult<'a, H> {
    pub route: &'a Route<H>,
    pub bindings: Bindings,
}

/// The route registry: an ordered, append-only sequence of routes.
/// Registration order determines match priority: the first route that
/// matches wins.
pub struct Router<H> {
    routes: Vec<Route<H>>,
}

impl<H: Clone> Clone for Route<H> {
    /// The clone keeps the pattern, the matcher and the variable table, and
    /// holds a clone of the handler.
    fn clone(&self) -> (res: Self)
        ensures
            res.spec_path() == self.spec_path(),
            res.spec_variables() == self.spec_variables(),
            cloned::<H>(self.spec_handler(), res.spec_handler()),
    {
        proof {
            use_type_invariant(self);
        }
        Route {
            path: self.path.clone(),
            matcher: self.matcher.clone(),
            variables: self.variables.clone(),
            handler: self.handler.clone(),
        }
    }
}

impl<H: Clone> Clone for Router<H> {
    /// The clone holds clones of the registered routes, in the same order.
    fn clone(&self) -> (res: Self)
        ensures
            res.routes_view().len() == self.routes_view().len(),
            forall|i: int|
                0 <= i < self.routes_view().len() ==> (#[trigger] res.routes_view()[i]).spec_path()
                    == self.routes_view()[i].spec_path() && res.routes_view()[i].spec_variables()
                    == self.routes_view()[i].spec_variables() && cloned::<H>(
                    self.routes_view()[i].spec_handler(),
                    res.routes_view()[i].spec_handler(),
                ),
    {
        let n = self.routes.len();
        let mut routes: Vec<Route<H>> = Vec::new();
        let mut i: usize = 0;
        while i < n
            invariant
                i <= n,
                n == self.routes@.len(),
                routes@.len() == i,
                forall|k: int|
                    0 <= k < i ==> (#[trigger] routes@[k]).spec_path()
                        == self.routes@[k].spec_path() && routes@[k].spec_variables()
                        == self.routes@[k].spec_variables() && cloned::<H>(
                        self.routes@[k].spec_handler(),
                        routes@[k].spec_handler(),
                    ),
            decreases n - i,
        {
            routes.push(self.routes[i].clone());
            i = i + 1;
        }
        Router { routes }
    }
}

impl<H> Router<H> {
    /// The registered routes, in registration order.
    pub closed spec fn routes_view(&self) -> Seq<Route<H>> {
        self.routes@
    }

    /// An empty router.
    pub fn new() -> (r: Router<H>)
        ensures
            r.routes_view() == Seq::<Route<H>>::empty(),
    {
        let r = Router { routes: Vec::new() };
        proof {
            assert(r.routes_view() =~= Seq::<Route<H>>::empty());
        }
        r
    }

    /// Number of registered routes.
    pub fn len(&self) -> (r: usize)
        ensures
            r == self.routes_view().len(),
    {
        self.routes.len()
    }

    /// Compile `path` and append the route. On success the new route stands
    /// last, with lowest priority; on a pattern error nothing changes.
    pub fn add_route(&mut self, path: String, handler: H) -> (r: Result<(), PatternError>)
        ensures
            r is Ok <==> regex_compiles(matcher_source(path@)),
            r is Ok ==> final(self).routes_view().len() == old(self).routes_view().len() + 1
                && final(self).routes_view().drop_last() == old(self).routes_view()
                && final(self).routes_view().last().spec_path() == path@
                && final(self).routes_view().last().spec_variables() == table_of(
                token_seq(path@),
            ) && final(self).routes_view().last().spec_handler() == handler,
            r is Err ==> *final(self) == *old(self),
    {
        let matcher = match compile_matcher(path.as_str()) {
            Ok(m) => m,
            Err(e) => {
                return Err(e);
            },
        };
        let variables = extract_variable_positions(path.as_str());
        let route = Route { path, matcher, variables, handler };
        self.routes.push(route);
        proof {
            assert(self.routes@.drop_last() =~= old(self).routes@);
        }
        Ok(())
    }

    /// Resolve `path`: scan the routes in registration order and return the
    /// first whose matcher matches the whole path, with the variable values
    /// it captured, or nothing when no route matches.
    pub fn match_route<'a>(&'a self, path: String) -> (r: Option<MatchResult<'a, H>>)
        ensures
            r is Some <==> first_match(self.routes_view(), path@) is Some,
            r matches Some(m) ==> (match_view(self.routes_view(), path@) matches Some(v)
                && 0 <= v.idx < self.routes_view().len() && *m.route == self.routes_view()[v.idx]
                && m.bindings@ == v.bindings),
    {
        let ghost routes = self.routes@;
        let n = self.routes.len();
        let mut i: usize = 0;
        let mut found = false;
        while i < n && !found
            invariant
                n == routes.len(),
                routes == self.routes@,
                i <= n,
                forall|k: int| 0 <= k < i ==> !route_matches(routes[k], path@),
                found ==> i < n && route_matches(routes[i as int], path@),
            decreases n - i + (if found { 0int } else { 1int }),
        {
            let route = &self.routes[i];
            proof {
                use_type_invariant(route);
            }
            if route.matcher.is_match(path.as_str()) {
                found = true;
            } else {
                i = i + 1;
            }
        }
        if !found {
            proof {
                lemma_skip_nonmatching(routes, path@, 0, n as int);
            }
            return None;
        }
        proof {
            lemma_skip_nonmatching(routes, path@, 0, i as int);
            assert(first_match(routes, path@) == Some(i as int));
        }
        let route = &self.routes[i];
        proof {
            use_type_invariant(route);
        }
        let ghost cspec = regex_captures(matcher_source(route.spec_path()), path@);
        let caps = route.matcher.captures(path.as_str()).unwrap();
        let vars = &route.variables;
        let nv = vars.len();
        let mut entries: Vec<(String, String)> = Vec::new();
        let mut k: usize = 0;
        while k < nv
            invariant
                nv == vars@.len(),
                k <= nv,
                caps.deep_view() == cspec,
                entries@.len() == k,
                forall|t: int|
                    0 <= t < k ==> (#[trigger] entries@[t]).0@ == vars@[t].0 && entries@[t].1@
                        == cap_text(cspec, vars@[t].1),
            decreases nv - k,
        {
            let (name, pos) = vars.entry_at(k);
            let value: String = if pos < caps.len() {
                match caps[pos].as_ref() {
                    Some(s) => s.clone(),
                    None => String::new(),
                }
            } else {
                String::new()
            };
            proof {
                if (pos as int) < caps@.len() {
                    assert(caps.deep_view()[pos as int] == caps@[pos as int].deep_view());
                }
                assert(value@ == cap_text(cspec, pos as int));
            }
            entries.push((name, value));
            k = k + 1;
        }
        let bindings = Bindings { entries };
        proof {
            assert(bindings@ =~= bindings_of(routes[i as int], path@));
        }
        Some(MatchResult { route, bindings })
    }
}

/// Scanning past routes that do not match leaves the resolution outcome
/// unchanged.
proof fn lemma_skip_nonmatching<H>(routes: Seq<Route<H>>, path: Seq<char>, k: int, i: int)
    requires
        0 <= k <= i <= routes.len(),
        forall|t: int| k <= t < i ==> !route_matches(routes[t], path),
    ensures
        first_match_from(routes, path, k) == first_match_from(routes, path, i),
    decreases i - k,
{
    if k < i {
        lemma_skip_nonmatching(routes, path, k + 1, i);
    }
}

/// The resolved route matches, and no route before the index `i` of any
/// matching route can be skipped: the outcome's index is at most `i`.
proof fn lemma_first_match_from_le<H>(routes: Seq<Route<H>>, path: Seq<char>, s: int, i: int)
    requires
        0 <= s <= i < routes.len(),
        route_matches(routes[i], path),
    ensures
        match first_match_from(routes, path, s) {
            Some(k) => s <= k <= i && route_matches(routes[k], path),
            None => false,
        },
    decreases i - s,
{
    if !route_matches(routes[s], path) {
        lemma_first_match_from_le(routes, path, s + 1, i);
    }
}

/// Law: match priority. When two registered routes could both match the
/// same concrete path, resolution never returns the later one: the route
/// returned stands no later than the earlier of the two, and it matches.
pub proof fn lemma_route_priority<H>(routes: Seq<Route<H>>, path: Seq<char>, i: int, j: int)
    requires
        0 <= i < j < routes.len(),
        route_matches(routes[i], path),
        route_matches(routes[j], path),
    ensures
        match first_match(routes, path) {
            Some(k) => 0 <= k <= i && route_matches(routes[k], path),
            None => false,
        },
{
    lemma_first_match_from_le(routes, path, 0, i);
}

/// Law: resolution is idempotent. What `match_route` returns is a function
/// of the registered routes and the path alone, so two calls with the same
/// path and no registration in between yield equal outcomes.
pub proof fn lemma_match_route_idempotent<H>(
    routes: Seq<Route<H>>,
    path: Seq<char>,
    r1: Option<MatchV>,
    r2: Option<MatchV>,
)
    requires
        r1 == match_view(routes, path),
        r2 == match_view(routes, path),
    ensures
        r1 == r2,
{
}

/// When `name` is absent, `lookup_binding` finds nothing.
proof fn lemma_lookup_binding_absent(m: Seq<(Seq<char>, Seq<char>)>, name: Seq<char>)
    requires
        forall|i: int| 0 <= i < m.len() ==> m[i].0 != name,
    ensures
        lookup_binding(m, name) is None,
    decreases m.len(),
{
    if m.len() > 0 {
        assert(forall|i: int| 0 <= i < m.skip(1).len() ==> m.skip(1)[i].0 != name);
        lemma_lookup_binding_absent(m.skip(1), name);
    }
}

/// When `name` sits first at slot `k`, `lookup_binding` yields that value.
proof fn lemma_lookup_binding_found(m: Seq<(Seq<char>, Seq<char>)>, name: Seq<char>, k: int)
    requires
        0 <= k < m.len(),
        m[k].0 == name,
        forall|i: int| 0 <= i < k ==> m[i].0 != name,
    ensures
        lookup_binding(m, name) == Some(m[k].1),
    decreases m.len(),
{
    if k == 0 {
    } else {
        assert(m[0].0 != name);
        assert(m.skip(1)[k - 1].0 == name);
        assert(forall|i: int| 0 <= i < k - 1 ==> m.skip(1)[i].0 != name);
        lemma_lookup_binding_found(m.skip(1), name, k - 1);
    }
}

} // verus!
