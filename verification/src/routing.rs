//! The route table, the wildcard fallback-matching router, and the
//! dispatcher that hands a resolved request to a handler.

use vstd::prelude::*;
use vstd::string::*;
use crate::http::Request;
use crate::http::Response;
use crate::http::content_type::ContentType;
use crate::http::not_found;
use crate::http::route_key;
use crate::strutil::split_chars;
use crate::strutil::split_str;
use crate::strutil::str_eq;

verus! {

/// The function type all routes map to, as a trait the host program
/// implements: a handler takes the resolved request and the configuration
/// and builds the response.  The library assumes nothing about the result.
pub trait Handler: Sized {
    /// Computes the response for a resolved request.
    fn handle(&self, request: Request, config: &Configuration<Self>) -> Response;
}

/// The mapping denoted by a sequence of key/handler pairs: later pairs win.
pub open spec fn routes_map<H>(s: Seq<(Seq<char>, H)>) -> Map<Seq<char>, H>
    decreases s.len(),
{
    if s.len() == 0 {
        Map::<Seq<char>, H>::empty()
    } else {
        routes_map(s.drop_last()).insert(s.last().0, s.last().1)
    }
}

proof fn lemma_routes_map_contains<H>(s: Seq<(Seq<char>, H)>, k: Seq<char>)
    ensures
        routes_map(s).dom().contains(k) <==> exists|i: int| 0 <= i < s.len() && s[i].0 == k,
    decreases s.len(),
{
    if s.len() > 0 {
        lemma_routes_map_contains(s.drop_last(), k);
        if s.last().0 == k {
            assert(s[s.len() - 1].0 == k);
        } else if routes_map(s).dom().contains(k) {
            let i = choose|i: int| 0 <= i < s.len() - 1 && s.drop_last()[i].0 == k;
            assert(s[i].0 == k);
        } else {
            assert(forall|i: int| 0 <= i < s.len() - 1 ==> s.drop_last()[i].0 == s[i].0);
        }
    }
}

proof fn lemma_routes_map_get<H>(s: Seq<(Seq<char>, H)>, k: Seq<char>, i: int)
    requires
        0 <= i < s.len(),
        s[i].0 == k,
        forall|j: int| i < j < s.len() ==> s[j].0 != k,
    ensures
        routes_map(s).dom().contains(k),
        routes_map(s)[k] == s[i].1,
    decreases s.len(),
{
    if i == s.len() - 1 {
    } else {
        assert(s.last().0 != k);
        lemma_routes_map_get(s.drop_last(), k, i);
    }
}

proof fn lemma_routes_map_len<H>(s: Seq<(Seq<char>, H)>)
    requires
        forall|i: int, j: int| 0 <= i < j < s.len() ==> s[i].0 != s[j].0,
    ensures
        routes_map(s).dom().finite(),
        routes_map(s).dom().len() == s.len(),
    decreases s.len(),
{
    if s.len() > 0 {
        lemma_routes_map_len(s.drop_last());
        lemma_routes_map_contains(s.drop_last(), s.last().0);
        assert(!routes_map(s.drop_last()).dom().contains(s.last().0));
        assert(routes_map(s).dom() =~= routes_map(s.drop_last()).dom().insert(s.last().0));
    }
}

proof fn lemma_routes_map_update<H>(s: Seq<(Seq<char>, H)>, i: int, k: Seq<char>, v: H)
    requires
        0 <= i < s.len(),
        s[i].0 == k,
        forall|p: int, q: int| 0 <= p < q < s.len() ==> s[p].0 != s[q].0,
    ensures
        routes_map(s.update(i, (k, v))) == routes_map(s).insert(k, v),
    decreases s.len(),
{
    let s2 = s.update(i, (k, v));
    if i == s.len() - 1 {
        assert(s2.drop_last() =~= s.drop_last());
        assert(s2.last() == (k, v));
        assert(routes_map(s.drop_last()).insert(k, v) =~= routes_map(s.drop_last()).insert(
            k,
            s.last().1,
        ).insert(k, v));
    } else {
        assert(s2.drop_last() =~= s.drop_last().update(i, (k, v)));
        assert(s2.last() == s.last());
        lemma_routes_map_update(s.drop_last(), i, k, v);
        assert(s.last().0 != k);
        assert(routes_map(s.drop_last()).insert(k, v).insert(s.last().0, s.last().1)
            =~= routes_map(s.drop_last()).insert(s.last().0, s.last().1).insert(k, v));
    }
}

/// Holds the route configuration: an ordered table from route keys
/// (`"<METHOD> <PATH>"`, wildcard routes ending in the `{}` segment) to
/// handlers.  Lookups see only the key set, so insertion order is
/// irrelevant to resolution.
#[derive(Debug)]
pub struct Routes<H> {
    pairs: Vec<(String, H)>,
}

impl<H> View for Routes<H> {
    type V = Map<Seq<char>, H>;

    closed spec fn view(&self) -> Map<Seq<char>, H> {
        routes_map(self.pairs_view())
    }
}

impl<H> Routes<H> {
    spec fn pairs_view(&self) -> Seq<(Seq<char>, H)> {
        Seq::new(self.pairs@.len(), |i: int| (self.pairs@[i].0@, self.pairs@[i].1))
    }

    /// The unique-keys invariant; every table reachable through this
    /// interface satisfies it.
    #[verifier::type_invariant]
    spec fn wf(&self) -> bool {
        forall|i: int, j: int|
            0 <= i < j < self.pairs_view().len() ==> self.pairs_view()[i].0
                != self.pairs_view()[j].0
    }

    /// Creates an empty route table.
    pub fn new() -> (r: Routes<H>)
        ensures
            r@ == Map::<Seq<char>, H>::empty(),
    {
        let r = Routes { pairs: Vec::new() };
        proof {
            assert(r.pairs_view() =~= Seq::<(Seq<char>, H)>::empty());
        }
        r
    }

    /// The number of routes in the table.
    pub fn len(&self) -> (r: usize)
        ensures
            self@.dom().finite(),
            r == self@.dom().len(),
    {
        proof {
            use_type_invariant(&*self);
            lemma_routes_map_len(self.pairs_view());
        }
        self.pairs.len()
    }

    /// Whether a route key is registered.
    pub fn contains_route(&self, route: &str) -> (r: bool)
        ensures
            r == self@.dom().contains(route@),
    {
        let n = self.pairs.len();
        let mut i: usize = 0;
        while i < n
            invariant
                0 <= i <= n,
                n == self.pairs_view().len(),
                forall|j: int| 0 <= j < i ==> self.pairs_view()[j].0 != route@,
            decreases n - i,
        {
            if str_eq(self.pairs[i].0.as_str(), route) {
                proof {
                    assert(self.pairs_view()[i as int].0 == route@);
                    lemma_routes_map_contains(self.pairs_view(), route@);
                }
                return true;
            }
            i = i + 1;
        }
        proof {
            lemma_routes_map_contains(self.pairs_view(), route@);
        }
        false
    }

    /// The handler registered for a route key, if any.
    pub fn get_route(&self, route: &str) -> (r: Option<&H>)
        ensures
            match r {
                Some(h) => self@.dom().contains(route@) && *h == self@[route@],
                None => !self@.dom().contains(route@),
            },
    {
        proof {
            use_type_invariant(&*self);
        }
        let n = self.pairs.len();
        let mut i: usize = 0;
        while i < n
            invariant
                0 <= i <= n,
                n == self.pairs_view().len(),
                self.wf(),
                forall|j: int| 0 <= j < i ==> self.pairs_view()[j].0 != route@,
            decreases n - i,
        {
            if str_eq(self.pairs[i].0.as_str(), route) {
                proof {
                    assert(self.pairs_view()[i as int].0 == route@);
                    assert forall|j: int|
                        i < j < self.pairs_view().len() implies self.pairs_view()[j].0
                        != route@ by {
                        assert(self.pairs_view()[i as int].0 != self.pairs_view()[j].0);
                    }
                    lemma_routes_map_get(self.pairs_view(), route@, i as int);
                }
                return Some(&self.pairs[i].1);
            }
            i = i + 1;
        }
        proof {
            lemma_routes_map_contains(self.pairs_view(), route@);
        }
        None
    }

    /// Registers a handler for a route key, replacing any handler the key
    /// already had; the table grows only for a fresh key.
    pub fn add_route(&mut self, key: &str, callback: H)
        ensures
            final(self)@ == old(self)@.insert(key@, callback),
    {
        proof {
            use_type_invariant(&*self);
        }
        let mut pairs: Vec<(String, H)> = Vec::new();
        std::mem::swap(&mut pairs, &mut self.pairs);
        let ghost opv = old(self).pairs_view();
        let n = pairs.len();
        let mut i: usize = 0;
        while i < n
            invariant
                0 <= i <= n,
                n == opv.len(),
                opv == Seq::new(pairs@.len() as nat, |j: int| (pairs@[j].0@, pairs@[j].1)),
                opv == old(self).pairs_view(),
                routes_map(opv) == old(self)@,
                forall|p: int, q: int| 0 <= p < q < opv.len() ==> opv[p].0 != opv[q].0,
                forall|j: int| 0 <= j < i ==> opv[j].0 != key@,
            decreases n - i,
        {
            if str_eq(pairs[i].0.as_str(), key) {
                proof {
                    assert(opv[i as int].0 == key@);
                    lemma_routes_map_update(opv, i as int, key@, callback);
                }
                let ghost pv2 = opv.update(i as int, (key@, callback));
                pairs[i] = (key.to_owned(), callback);
                proof {
                    assert(Seq::new(pairs@.len() as nat, |j: int| (pairs@[j].0@, pairs@[j].1))
                        =~~= pv2);
                    assert(forall|j: int| 0 <= j < pv2.len() ==> pv2[j].0 == opv[j].0);
                    assert(forall|p: int, q: int|
                        0 <= p < q < pv2.len() ==> pv2[p].0 != pv2[q].0);
                }
                self.pairs = pairs;
                proof {
                    assert(self.pairs_view() =~~= pv2);
                }
                return ;
            }
            i = i + 1;
        }
        proof {
            lemma_routes_map_contains(opv, key@);
        }
        let ghost pv2 = opv.push((key@, callback));
        pairs.push((key.to_owned(), callback));
        proof {
            assert(Seq::new(pairs@.len() as nat, |j: int| (pairs@[j].0@, pairs@[j].1)) =~~= pv2);
            assert(forall|j: int| 0 <= j < opv.len() ==> pv2[j] == opv[j]);
            assert(pv2[opv.len() as int].0 == key@);
            assert(forall|p: int, q: int| 0 <= p < q < pv2.len() ==> pv2[p].0 != pv2[q].0);
        }
        self.pairs = pairs;
        proof {
            assert(self.pairs_view() =~~= pv2);
            assert(pv2.drop_last() =~~= opv);
            assert(routes_map(self.pairs_view()) =~= old(self)@.insert(key@, callback));
        }
    }

    /// Registers a handler for a route key.  Used in the builder pattern.
    pub fn with_route(self, route: &str, callback: H) -> (r: Routes<H>)
        ensures
            r@ == self@.insert(route@, callback),
    {
        let mut r = self;
        r.add_route(route, callback);
        r
    }
}

impl<H: Copy> Routes<H> {
    /// An equal copy of the table.
    pub fn clone(&self) -> (r: Routes<H>)
        ensures
            r@ == self@,
    {
        proof {
            use_type_invariant(&*self);
        }
        let n = self.pairs.len();
        let mut pairs: Vec<(String, H)> = Vec::new();
        let mut i: usize = 0;
        while i < n
            invariant
                0 <= i <= n,
                n == self.pairs_view().len(),
                Seq::new(pairs@.len() as nat, |j: int| (pairs@[j].0@, pairs@[j].1))
                    =~~= self.pairs_view().take(i as int),
                self.wf(),
            decreases n - i,
        {
            let ghost before = Seq::new(pairs@.len() as nat, |j: int| (pairs@[j].0@, pairs@[j].1));
            pairs.push((self.pairs[i].0.clone(), self.pairs[i].1));
            proof {
                assert(Seq::new(pairs@.len() as nat, |j: int| (pairs@[j].0@, pairs@[j].1))
                    =~~= before.push(self.pairs_view()[i as int]));
                assert(before.push(self.pairs_view()[i as int]) =~~= self.pairs_view().take(i + 1));
            }
            i = i + 1;
        }
        let r = Routes { pairs };
        proof {
            assert(r.pairs_view() =~~= self.pairs_view());
        }
        r
    }
}

/// Holds the server settings: listen address and the directories the
/// static-file and template collaborators read from.
#[derive(Debug, PartialEq, Eq)]
pub struct Server {
    pub host: String,
    pub port: String,
    pub static_dir: String,
    pub html_dir: String,
}

impl Server {
    /// Creates the default settings: localhost port 8000, `static/` for
    /// static files, `templates/` for HTML templates.
    pub fn new() -> (r: Server)
        ensures
            r.host@ == "127.0.0.1"@,
            r.port@ == "8000"@,
            r.static_dir@ == "static/"@,
            r.html_dir@ == "templates/"@,
    {
        Server {
            host: String::from_str("127.0.0.1"),
            port: String::from_str("8000"),
            static_dir: String::from_str("static/"),
            html_dir: String::from_str("templates/"),
        }
    }

    /// Returns the host in the format `123.123.123.123`.
    pub fn get_host(&self) -> (r: String)
        ensures
            r@ == self.host@,
    {
        self.host.clone()
    }

    /// Returns the port in the format `1234` (no colons).
    pub fn get_port(&self) -> (r: String)
        ensures
            r@ == self.port@,
    {
        self.port.clone()
    }

    pub fn get_static_directory(&self) -> (r: String)
        ensures
            r@ == self.static_dir@,
    {
        self.static_dir.clone()
    }

    pub fn get_html_directory(&self) -> (r: String)
        ensures
            r@ == self.html_dir@,
    {
        self.html_dir.clone()
    }

    pub fn with_host(self, host: &str) -> (r: Server)
        ensures
            r.host@ == host@,
            r.port == self.port,
            r.static_dir == self.static_dir,
            r.html_dir == self.html_dir,
    {
        Server { host: host.to_owned(), ..self }
    }

    pub fn with_port(self, port: &str) -> (r: Server)
        ensures
            r.host == self.host,
            r.port@ == port@,
            r.static_dir == self.static_dir,
            r.html_dir == self.html_dir,
    {
        Server { port: port.to_owned(), ..self }
    }

    pub fn with_static_dir(self, static_dir: &str) -> (r: Server)
        ensures
            r.host == self.host,
            r.port == self.port,
            r.static_dir@ == static_dir@,
            r.html_dir == self.html_dir,
    {
        Server { static_dir: static_dir.to_owned(), ..self }
    }

    pub fn with_html_dir(self, html_dir: &str) -> (r: Server)
        ensures
            r.host == self.host,
            r.port == self.port,
            r.static_dir == self.static_dir,
            r.html_dir@ == html_dir@,
    {
        Server { html_dir: html_dir.to_owned(), ..self }
    }

    /// Resolves a request against a route table with the default router.
    pub fn route_request<'a, H>(&self, request: &Request, routes: &'a Routes<H>) -> (r: (
        Vec<String>,
        Option<&'a H>,
    ))
        ensures
            r.0.deep_view() == resolve_spec(routes@, request.method@, request.route@).0,
            match r.1 {
                Some(h) => resolve_spec(routes@, request.method@, request.route@).1 == Some(*h),
                None => resolve_spec(routes@, request.method@, request.route@).1 is None,
            },
    {
        default_router(request, routes)
    }

    pub fn clone(&self) -> (r: Server)
        ensures
            r == *self,
    {
        Server {
            host: self.host.clone(),
            port: self.port.clone(),
            static_dir: self.static_dir.clone(),
            html_dir: self.html_dir.clone(),
        }
    }
}

/// Holds the whole server configuration: settings and route table,
/// constructed once and passed by reference into the dispatcher.
#[derive(Debug)]
pub struct Configuration<H> {
    pub server: Server,
    pub routes: Routes<H>,
}

impl<H> Configuration<H> {
    /// Creates the default configuration: default settings and an empty
    /// route table.
    pub fn new() -> (r: Configuration<H>)
        ensures
            r.server.host@ == "127.0.0.1"@,
            r.server.port@ == "8000"@,
            r.server.static_dir@ == "static/"@,
            r.server.html_dir@ == "templates/"@,
            r.routes@ == Map::<Seq<char>, H>::empty(),
    {
        Configuration { server: Server::new(), routes: Routes::new() }
    }

    pub fn with_server_configurations(self, configs: Server) -> (r: Configuration<H>)
        ensures
            r.server == configs,
            r.routes == self.routes,
    {
        Configuration { server: configs, ..self }
    }

    pub fn with_routes(self, routes: Routes<H>) -> (r: Configuration<H>)
        ensures
            r.server == self.server,
            r.routes == routes,
    {
        Configuration { routes, ..self }
    }
}

impl<H: Copy> Configuration<H> {
    pub fn clone(&self) -> (r: Configuration<H>)
        ensures
            r.server == self.server,
            r.routes@ == self.routes@,
    {
        Configuration { server: self.server.clone(), routes: self.routes.clone() }
    }
}

/// The embeddable server value: a configuration waiting for a host program
/// to run its accept loop.
#[derive(Debug)]
pub struct Servo<H> {
    pub configuration: Configuration<H>,
}

impl<H> Servo<H> {
    /// Creates a server with the default configuration.
    pub fn new() -> (r: Servo<H>)
        ensures
            r.configuration.server.host@ == "127.0.0.1"@,
            r.configuration.server.port@ == "8000"@,
            r.configuration.routes@ == Map::<Seq<char>, H>::empty(),
    {
        Servo { configuration: Configuration::new() }
    }

    pub fn with_configuration(self, configuration: Configuration<H>) -> (r: Servo<H>)
        ensures
            r.configuration == configuration,
    {
        Servo { configuration }
    }
}

/// Each path segment followed by one `'/'`, concatenated.
pub open spec fn flatten_slashed(segs: Seq<Seq<char>>) -> Seq<char>
    decreases segs.len(),
{
    if segs.len() == 0 {
        Seq::<char>::empty()
    } else {
        segs[0] + "/"@ + flatten_slashed(segs.skip(1))
    }
}

/// The wildcard route key that matches `segs` followed by one or more
/// captured segments: the method, then the segments, then the reserved
/// `{}` token as the final segment.
pub open spec fn wild_key(method: Seq<char>, segs: Seq<Seq<char>>) -> Seq<char> {
    method + " /"@ + flatten_slashed(segs) + "{}"@
}

/// The path segments of a route key: the pieces between slashes, without
/// what precedes the first slash (the method and the space).
pub open spec fn key_segments(key: Seq<char>) -> Seq<Seq<char>> {
    split_chars(key, '/').skip(1)
}

/// The longest strict prefix of `segs` whose wildcard key is in the table,
/// if any.
pub open spec fn wild_search<H>(
    t: Map<Seq<char>, H>,
    method: Seq<char>,
    segs: Seq<Seq<char>>,
) -> Option<Seq<Seq<char>>>
    decreases segs.len(),
{
    if segs.len() == 0 {
        None
    } else {
        let rest = segs.drop_last();
        if t.dom().contains(wild_key(method, rest)) {
            Some(rest)
        } else {
            wild_search(t, method, rest)
        }
    }
}

/// What resolving `method` and `route` against a route table yields: the
/// captures, in path order, and the handler, if any route matches.  An
/// exact match always wins with no captures; otherwise the longest
/// registered wildcard prefix wins and the stripped segments are the
/// captures; otherwise there is no handler.
pub open spec fn resolve_spec<H>(t: Map<Seq<char>, H>, method: Seq<char>, route: Seq<char>) -> (
    Seq<Seq<char>>,
    Option<H>,
) {
    let key = route_key(method, route);
    if t.dom().contains(key) {
        (Seq::<Seq<char>>::empty(), Some(t[key]))
    } else {
        let segs = key_segments(key);
        if segs.len() == 0 {
            if t.dom().contains(wild_key(method, Seq::<Seq<char>>::empty())) {
                (
                    seq![Seq::<char>::empty()],
                    Some(t[wild_key(method, Seq::<Seq<char>>::empty())]),
                )
            } else {
                (Seq::<Seq<char>>::empty(), None)
            }
        } else {
            match wild_search(t, method, segs) {
                Some(prefix) => (
                    segs.skip(prefix.len() as int),
                    Some(t[wild_key(method, prefix)]),
                ),
                None => (Seq::<Seq<char>>::empty(), None),
            }
        }
    }
}

/// The search finds exactly the longest matching prefix.
pub proof fn lemma_wild_search_found<H>(
    t: Map<Seq<char>, H>,
    method: Seq<char>,
    segs: Seq<Seq<char>>,
    k: int,
)
    requires
        0 <= k < segs.len(),
        t.dom().contains(wild_key(method, segs.take(k))),
        forall|k2: int|
            k < k2 < segs.len() ==> !t.dom().contains(wild_key(method, segs.take(k2))),
    ensures
        wild_search(t, method, segs) == Some(segs.take(k)),
    decreases segs.len(),
{
    let rest = segs.drop_last();
    assert(rest =~~= segs.take(segs.len() - 1));
    if k == segs.len() - 1 {
    } else {
        assert(!t.dom().contains(wild_key(method, segs.take(segs.len() - 1))));
        assert(forall|k2: int| 0 <= k2 <= rest.len() ==> rest.take(k2) =~~= segs.take(k2));
        lemma_wild_search_found(t, method, rest, k);
    }
}

/// When no prefix matches, the search fails.
pub proof fn lemma_wild_search_none<H>(
    t: Map<Seq<char>, H>,
    method: Seq<char>,
    segs: Seq<Seq<char>>,
)
    requires
        forall|k2: int|
            0 <= k2 < segs.len() ==> !t.dom().contains(wild_key(method, segs.take(k2))),
    ensures
        wild_search(t, method, segs) is None,
    decreases segs.len(),
{
    if segs.len() > 0 {
        let rest = segs.drop_last();
        assert(rest =~~= segs.take(segs.len() - 1));
        assert(forall|k2: int| 0 <= k2 <= rest.len() ==> rest.take(k2) =~~= segs.take(k2));
        lemma_wild_search_none(t, method, rest);
    }
}

proof fn lemma_flatten_slashed_take_step(p: Seq<Seq<char>>, i: int)
    requires
        0 <= i < p.len(),
    ensures
        flatten_slashed(p.take(i + 1)) =~= flatten_slashed(p.take(i)) + p[i] + "/"@,
    decreases i,
{
    if i == 0 {
        assert(p.take(1)[0] == p[0]);
        assert(p.take(1).skip(1) =~~= Seq::<Seq<char>>::empty());
        assert(p.take(0) =~~= Seq::<Seq<char>>::empty());
        assert(flatten_slashed(p.take(1)) == p[0] + "/"@ + flatten_slashed(p.take(1).skip(1)));
    } else {
        lemma_flatten_slashed_take_step(p.skip(1), i - 1);
        assert(p.take(i + 1).skip(1) =~~= p.skip(1).take(i));
        assert(p.take(i).skip(1) =~~= p.skip(1).take(i - 1));
        assert(p.take(i + 1)[0] == p[0]);
        assert(p.take(i)[0] == p[0]);
        assert(p.skip(1)[i - 1] == p[i]);
        assert(flatten_slashed(p.take(i + 1)) == p[0] + "/"@ + flatten_slashed(p.skip(1).take(i)));
        assert(flatten_slashed(p.take(i)) == p[0] + "/"@ + flatten_slashed(p.skip(1).take(i - 1)));
        assert(p[0] + "/"@ + (flatten_slashed(p.skip(1).take(i - 1)) + p[i] + "/"@) =~= (p[0] + "/"@
            + flatten_slashed(p.skip(1).take(i - 1))) + p[i] + "/"@);
    }
}

/// Builds the wildcard candidate key for the given remaining segments.
fn build_wild_key(method: &String, segments: &Vec<String>) -> (r: String)
    ensures
        r@ == wild_key(method@, segments.deep_view()),
{
    let ghost dv = segments.deep_view();
    let mut k = method.clone();
    k.append(" /");
    proof {
        assert(dv.take(0) =~~= Seq::<Seq<char>>::empty());
        assert(k@ =~= method@ + " /"@ + flatten_slashed(dv.take(0)));
    }
    let n = segments.len();
    let mut i: usize = 0;
    while i < n
        invariant
            0 <= i <= n,
            n == dv.len(),
            dv == segments.deep_view(),
            k@ == method@ + " /"@ + flatten_slashed(dv.take(i as int)),
        decreases n - i,
    {
        k.append(segments[i].as_str());
        k.append("/");
        proof {
            lemma_flatten_slashed_take_step(dv, i as int);
            assert((method@ + " /"@ + flatten_slashed(dv.take(i as int))) + dv[i as int] + "/"@
                =~= method@ + " /"@ + (flatten_slashed(dv.take(i as int)) + dv[i as int] + "/"@));
        }
        i = i + 1;
    }
    proof {
        assert(dv.take(n as int) =~~= dv);
    }
    k.append("{}");
    k
}

/// A copy of the vector with the elements in reverse order.
fn reversed_vec(v: Vec<String>) -> (r: Vec<String>)
    ensures
        r.deep_view() == v.deep_view().reverse(),
{
    let n = v.len();
    let mut out: Vec<String> = Vec::new();
    let mut i: usize = 0;
    while i < n
        invariant
            0 <= i <= n,
            n == v.deep_view().len(),
            out.deep_view().len() == i,
            forall|j: int| 0 <= j < i ==> out.deep_view()[j] == v.deep_view()[n - 1 - j],
        decreases n - i,
    {
        let ghost before = out.deep_view();
        out.push(v[n - 1 - i].clone());
        proof {
            assert(out.deep_view() =~~= before.push(v.deep_view()[n - 1 - i]));
        }
        i = i + 1;
    }
    proof {
        assert(out.deep_view() =~~= v.deep_view().reverse());
    }
    out
}

/// The default router: resolves a request against the route table.  An
/// exact match of `method + " " + route` wins with no captures; otherwise
/// trailing path segments are stripped one at a time, each candidate
/// `"METHOD /prefix/{}"` is looked up, the first hit (the most specific
/// registered wildcard route) wins and the stripped segments become the
/// captures, in path order; otherwise there is no handler and no captures.
///
/// Only a wildcard token at the end of a route key is matched; wildcards in
/// the middle of a path are not.
pub fn default_router<'a, H>(request: &Request, routes: &'a Routes<H>) -> (r: (
    Vec<String>,
    Option<&'a H>,
))
    ensures
        r.0.deep_view() == resolve_spec(routes@, request.method@, request.route@).0,
        match r.1 {
            Some(h) => resolve_spec(routes@, request.method@, request.route@).1 == Some(*h),
            None => resolve_spec(routes@, request.method@, request.route@).1 is None,
        },
{
    let ghost key = route_key(request.method@, request.route@);
    let ghost segs = key_segments(key);
    let requested_route = request.get_route();
    if routes.contains_route(requested_route.as_str()) {
        let func = routes.get_route(requested_route.as_str());
        let args: Vec<String> = Vec::new();
        proof {
            assert(args.deep_view() =~~= Seq::<Seq<char>>::empty());
        }
        return (args, func);
    }
    let requested_method = request.get_method();
    let mut segments = split_str(requested_route.as_str(), '/');
    let ghost full = segments.deep_view();
    segments.remove(0);
    proof {
        assert(segments.deep_view() =~~= full.skip(1));
        assert(segments.deep_view() =~~= segs);
    }
    let n = segments.len();
    if n == 0 {
        let cand = build_wild_key(&requested_method, &segments);
        proof {
            assert(segments.deep_view() =~~= Seq::<Seq<char>>::empty());
        }
        if routes.contains_route(cand.as_str()) {
            let func = routes.get_route(cand.as_str());
            let mut args: Vec<String> = Vec::new();
            args.push(String::new());
            proof {
                assert(args.deep_view() =~~= seq![Seq::<char>::empty()]);
            }
            return (args, func);
        } else {
            let args: Vec<String> = Vec::new();
            proof {
                assert(args.deep_view() =~~= Seq::<Seq<char>>::empty());
            }
            return (args, None);
        }
    }
    let mut args: Vec<String> = Vec::new();
    let mut func: Option<&'a H> = None;
    proof {
        assert(segments.deep_view() =~~= segs.take(n as int));
        assert(args.deep_view() =~~= segs.skip(n as int).reverse());
    }
    while segments.len() > 0 && func.is_none()
        invariant
            segs == key_segments(key),
            segs.len() == n,
            n >= 1,
            segments.deep_view().len() <= n,
            segments.deep_view() == segs.take(segments.deep_view().len() as int),
            args.deep_view() == segs.skip(segments.deep_view().len() as int).reverse(),
            requested_method@ == request.method@,
            match func {
                None => forall|k2: int|
                    segments.deep_view().len() <= k2 < n ==> !routes@.dom().contains(
                        wild_key(request.method@, segs.take(k2)),
                    ),
                Some(h) => {
                    &&& segments.deep_view().len() < n
                    &&& routes@.dom().contains(
                        wild_key(request.method@, segs.take(segments.deep_view().len() as int)),
                    )
                    &&& *h == routes@[wild_key(
                        request.method@,
                        segs.take(segments.deep_view().len() as int),
                    )]
                    &&& forall|k2: int|
                        segments.deep_view().len() < k2 < n ==> !routes@.dom().contains(
                            wild_key(request.method@, segs.take(k2)),
                        )
                },
            },
        decreases segments.len(),
    {
        let ghost len_before = segments.deep_view().len() as int;
        let ghost dv_before = segments.deep_view();
        let ghost args_before = args.deep_view();
        let popped = match segments.pop() {
            Some(s) => s,
            None => String::new(),
        };
        proof {
            assert(segments.deep_view() =~~= dv_before.drop_last());
            assert(dv_before.drop_last() =~~= segs.take(len_before - 1));
            assert(popped@ == dv_before[len_before - 1]);
            assert(dv_before[len_before - 1] == segs[len_before - 1]);
        }
        args.push(popped);
        proof {
            assert(args.deep_view() =~~= args_before.push(segs[len_before - 1]));
            assert(args_before.push(segs[len_before - 1]) =~~= segs.skip(len_before - 1).reverse());
        }
        let cand = build_wild_key(&requested_method, &segments);
        if routes.contains_route(cand.as_str()) {
            func = routes.get_route(cand.as_str());
        }
    }
    match func {
        Some(h) => {
            let ghost lk = segments.deep_view().len() as int;
            proof {
                lemma_wild_search_found(routes@, request.method@, segs, lk);
            }
            let final_args = if args.len() > 1 {
                let r = reversed_vec(args);
                proof {
                    assert(r.deep_view() =~~= segs.skip(lk));
                }
                r
            } else {
                proof {
                    assert(args.deep_view() =~~= segs.skip(lk));
                }
                args
            };
            (final_args, Some(h))
        },
        None => {
            proof {
                lemma_wild_search_none(routes@, request.method@, segs);
            }
            let empty_args: Vec<String> = Vec::new();
            proof {
                assert(empty_args.deep_view() =~~= Seq::<Seq<char>>::empty());
            }
            (empty_args, None)
        },
    }
}

/// Dispatches a request: resolves it, attaches the captures, and hands it
/// to the matched handler.  A routing miss is not an error: it yields the
/// default not-found response.
pub fn route_request<H: Handler>(request: Request, configs: &Configuration<H>) -> (r: Response)
    ensures
        resolve_spec(configs.routes@, request.method@, request.route@).1 is None ==> {
            &&& r.status == 404
            &&& r.content_type == ContentType::TextHtml
            &&& r.body@ == vstd::utf8::encode_utf8("Route not found."@)
            &&& r.headers is None
        },
{
    let (args, callback) = configs.server.route_request(&request, &configs.routes);
    match callback {
        Some(f) => f.handle(request.with_url_args(args), configs),
        None => not_found(String::from_str("Route not found."), ContentType::TextHtml),
    }
}

/// Exact matches always win: resolving a registered `method + " " + route`
/// key yields that key's handler and no captures, whatever wildcard routes
/// the table also holds.
pub proof fn lemma_exact_route_wins<H>(t: Map<Seq<char>, H>, method: Seq<char>, route: Seq<char>)
    requires
        t.dom().contains(route_key(method, route)),
    ensures
        resolve_spec(t, method, route) == (
            Seq::<Seq<char>>::empty(),
            Some(t[route_key(method, route)]),
        ),
{
}

/// Wildcard resolution strips exactly the uncovered trailing segments and
/// captures them in path order: when the longest registered prefix of the
/// path covers its first `k` segments, the captures are the remaining
/// segments, left to right.
pub proof fn lemma_wildcard_captures<H>(
    t: Map<Seq<char>, H>,
    method: Seq<char>,
    route: Seq<char>,
    k: int,
)
    requires
        !t.dom().contains(route_key(method, route)),
        0 <= k < key_segments(route_key(method, route)).len(),
        t.dom().contains(wild_key(method, key_segments(route_key(method, route)).take(k))),
        forall|k2: int|
            k < k2 < key_segments(route_key(method, route)).len() ==> !t.dom().contains(
                wild_key(method, key_segments(route_key(method, route)).take(k2)),
            ),
    ensures
        resolve_spec(t, method, route) == (
            key_segments(route_key(method, route)).skip(k),
            Some(t[wild_key(method, key_segments(route_key(method, route)).take(k))]),
        ),
{
    let segs = key_segments(route_key(method, route));
    lemma_wild_search_found(t, method, segs, k);
    assert(segs.take(k).len() == k);
}

/// More specific wildcard routes win: with two registered wildcard
/// prefixes of the same path, resolution picks the longer one.
pub proof fn lemma_more_specific_wins<H>(
    t: Map<Seq<char>, H>,
    method: Seq<char>,
    route: Seq<char>,
    k1: int,
    k2: int,
)
    requires
        !t.dom().contains(route_key(method, route)),
        0 <= k1 < k2 < key_segments(route_key(method, route)).len(),
        t.dom().contains(wild_key(method, key_segments(route_key(method, route)).take(k1))),
        t.dom().contains(wild_key(method, key_segments(route_key(method, route)).take(k2))),
        forall|k3: int|
            k2 < k3 < key_segments(route_key(method, route)).len() ==> !t.dom().contains(
                wild_key(method, key_segments(route_key(method, route)).take(k3)),
            ),
    ensures
        resolve_spec(t, method, route) == (
            key_segments(route_key(method, route)).skip(k2),
            Some(t[wild_key(method, key_segments(route_key(method, route)).take(k2))]),
        ),
{
    lemma_wildcard_captures(t, method, route, k2);
}

/// A path with no matching route resolves to no handler and empty
/// captures; dispatch then yields the default not-found response rather
/// than an error.
pub proof fn lemma_no_route_default<H>(t: Map<Seq<char>, H>, method: Seq<char>, route: Seq<char>)
    requires
        !t.dom().contains(route_key(method, route)),
        !t.dom().contains(wild_key(method, Seq::<Seq<char>>::empty())),
        forall|k: int|
            0 <= k < key_segments(route_key(method, route)).len() ==> !t.dom().contains(
                wild_key(method, key_segments(route_key(method, route)).take(k)),
            ),
    ensures
        resolve_spec(t, method, route) == (Seq::<Seq<char>>::empty(), Option::<H>::None),
{
    let segs = key_segments(route_key(method, route));
    lemma_wild_search_none(t, method, segs);
}

/// Re-adding a route key replaces the prior handler, and the table does
/// not grow: the rebound table equals the one where only the last handler
/// was ever added.
pub proof fn lemma_add_route_idempotent<H>(t: Map<Seq<char>, H>, key: Seq<char>, h1: H, h2: H)
    ensures
        t.insert(key, h1).insert(key, h2) == t.insert(key, h2),
        t.dom().finite() ==> t.insert(key, h1).insert(key, h2).dom().len() == t.insert(
            key,
            h2,
        ).dom().len(),
{
    assert(t.insert(key, h1).insert(key, h2) =~= t.insert(key, h2));
}

} // verus!
