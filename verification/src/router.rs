//! Routing of Gotify messages to Matrix rooms: each application's messages
//! go to the rooms of every stream that lists it, or to the default room
//! when no stream provides one.
use vstd::prelude::*;
use crate::config::{clone_opt_text, opt_text, stream_views, StreamSection, StreamView};
use crate::paths::{path_key, same_path, PathKey};
use crate::unique::{dedup_by, has_key, lemma_dedup_by_distinct, lemma_dedup_by_keys, lemma_dedup_by_subset};

verus! {

/// One destination of a message: a room, and the template to render it with
/// (`None` for the default template).
#[derive(Clone, Debug)]
pub struct Route {
    pub room_id: String,
    pub template: Option<String>,
}

/// What a route holds, as values.
pub struct RouteView {
    pub room_id: Seq<char>,
    pub template: Option<Seq<char>>,
}

impl View for Route {
    type V = RouteView;

    open spec fn view(&self) -> RouteView {
        RouteView { room_id: self.room_id@, template: opt_text(self.template) }
    }
}

/// The views of a sequence of routes.
pub open spec fn route_views(v: Seq<Route>) -> Seq<RouteView> {
    v.map_values(|r: Route| r@)
}

/// Decides where the messages of each Gotify application go.
#[derive(Clone, Debug)]
pub struct Router {
    streams: Vec<StreamSection>,
    default_room: Option<String>,
}

/// What a router holds, as values.
pub struct RouterView {
    pub streams: Seq<StreamView>,
    pub default_room: Option<Seq<char>>,
}

impl View for Router {
    type V = RouterView;

    closed spec fn view(&self) -> RouterView {
        RouterView { streams: stream_views(self.streams@), default_room: opt_text(self.default_room) }
    }
}

/// The routes one stream gives a message of application `app_id`: one per
/// room, with the stream's template, when the stream lists the application.
pub open spec fn stream_routes(s: StreamView, app_id: i64) -> Seq<RouteView> {
    if s.apps.contains(app_id) {
        s.rooms.map_values(|r: Seq<char>| RouteView { room_id: r, template: s.template })
    } else {
        Seq::empty()
    }
}

/// The routes of all streams for application `app_id`, stream by stream.
pub open spec fn matching_routes(streams: Seq<StreamView>, app_id: i64) -> Seq<RouteView>
    decreases streams.len(),
{
    if streams.len() == 0 {
        Seq::empty()
    } else {
        matching_routes(streams.drop_last(), app_id) + stream_routes(streams.last(), app_id)
    }
}

/// The routes before duplicates are dropped: those of the streams, or, when
/// the streams give none, the default room with the default template.
pub open spec fn candidate_routes(r: RouterView, app_id: i64) -> Seq<RouteView> {
    let m = matching_routes(r.streams, app_id);
    if m.len() == 0 {
        match r.default_room {
            Some(d) => seq![RouteView { room_id: d, template: None }],
            None => Seq::empty(),
        }
    } else {
        m
    }
}

/// What tells routes apart: the room, and the template as a path (compared
/// by its parts, so `x/t.md`, `x//t.md` and `x/./t.md` are one template).
pub struct RouteKey {
    pub room_id: Seq<char>,
    pub template: Option<PathKey>,
}

/// The key of a route.
pub open spec fn route_key(r: RouteView) -> RouteKey {
    RouteKey {
        room_id: r.room_id,
        template: match r.template {
            Some(t) => Some(path_key(t)),
            None => None,
        },
    }
}

/// The key of a route, as a function.
pub open spec fn route_key_fn() -> spec_fn(RouteView) -> RouteKey {
    |r: RouteView| route_key(r)
}

/// The routes of a message of application `app_id`: the candidate routes,
/// each kept only when no earlier one has the same room and names the same
/// template path.
pub open spec fn routes_of(r: RouterView, app_id: i64) -> Seq<RouteView> {
    dedup_by(candidate_routes(r, app_id), route_key_fn())
}

/// Whether `apps` lists `app_id`.
fn lists_app(apps: &Vec<i64>, app_id: i64) -> (r: bool)
    ensures
        r == apps@.contains(app_id),
{
    let mut k: usize = 0;
    while k < apps.len()
        invariant
            k <= apps.len(),
            forall|j: int| 0 <= j < k ==> apps@[j] != app_id,
        decreases apps.len() - k,
    {
        if apps[k] == app_id {
            return true;
        }
        k = k + 1;
    }
    false
}

fn same_route(a: &Route, b: &Route) -> (r: bool)
    ensures
        r == (route_key(a@) == route_key(b@)),
{
    if a.room_id != b.room_id {
        return false;
    }
    match (&a.template, &b.template) {
        (Some(x), Some(y)) => same_path(x.as_str(), y.as_str()),
        (None, None) => true,
        _ => false,
    }
}

fn has_route(v: &Vec<Route>, x: &Route) -> (r: bool)
    ensures
        r == has_key(route_views(v@), route_key_fn(), route_key(x@)),
{
    let mut k: usize = 0;
    while k < v.len()
        invariant
            k <= v.len(),
            forall|j: int| 0 <= j < k ==> route_key(v@[j]@) != route_key(x@),
        decreases v.len() - k,
    {
        if same_route(&v[k], x) {
            assert(route_key_fn()(route_views(v@)[k as int]) == route_key(x@));
            return true;
        }
        k = k + 1;
    }
    proof {
        if has_key(route_views(v@), route_key_fn(), route_key(x@)) {
            let j = choose|j: int| 0 <= j < route_views(v@).len() && route_key_fn()(#[trigger] route_views(v@)[j]) == route_key(x@);
            assert(route_key(v@[j]@) == route_key(x@));
        }
    }
    false
}

fn dedup_routes(v: Vec<Route>) -> (r: Vec<Route>)
    ensures
        route_views(r@) == dedup_by(route_views(v@), route_key_fn()),
{
    let ghost all = route_views(v@);
    let n = v.len();
    let mut pending = v;
    let mut out: Vec<Route> = Vec::new();
    let mut i: usize = 0;
    while i < n
        invariant
            n == all.len(),
            i <= n,
            pending.len() == n - i,
            route_views(pending@) == all.subrange(i as int, n as int),
            route_views(out@) == dedup_by(all.take(i as int), route_key_fn()),
        decreases n - i,
    {
        let ghost old_pending = pending@;
        let ghost old_out = out@;
        assert(route_views(old_pending)[0] == old_pending[0]@);
        let x = pending.remove(0);
        assert forall|j: int| 0 <= j < pending.len() implies #[trigger] route_views(pending@)[j]
            == all.subrange(i + 1, n as int)[j] by {
            assert(pending@[j] == old_pending[j + 1]);
            assert(route_views(old_pending)[j + 1] == old_pending[j + 1]@);
        }
        assert(route_views(pending@) =~= all.subrange(i + 1, n as int));
        assert(all.take(i + 1).drop_last() =~= all.take(i as int));
        assert(all.take(i + 1).last() == x@);
        proof {
            lemma_dedup_by_keys(all.take(i as int), route_key_fn(), route_key(x@));
        }
        if !has_route(&out, &x) {
            out.push(x);
            assert forall|j: int| 0 <= j < old_out.len() implies #[trigger] route_views(out@)[j]
                == route_views(old_out)[j] by {
                assert(out@[j] == old_out[j]);
            }
            assert(route_views(out@) =~= dedup_by(all.take(i + 1), route_key_fn()));
        }
        i = i + 1;
    }
    assert(all.take(n as int) =~= all);
    out
}

impl Router {
    /// A router over `streams`, falling back to `default_room`.
    pub fn new(streams: Vec<StreamSection>, default_room: Option<String>) -> (r: Self)
        ensures
            r@ == (RouterView { streams: stream_views(streams@), default_room: opt_text(default_room) }),
    {
        Router { streams, default_room }
    }

    /// Where a message of application `app_id` goes: the rooms of every
    /// stream that lists the application, in configuration order, each with
    /// its stream's template; when no stream gives a room, the default room
    /// (if any) with the default template. A route is left out when an
    /// earlier one goes to the same room with a template naming the same path.
    pub fn routes_for(&self, app_id: i64) -> (r: Vec<Route>)
        ensures
            route_views(r@) == routes_of(self@, app_id),
    {
        let ghost views = stream_views(self.streams@);
        let mut routes: Vec<Route> = Vec::new();
        let mut i: usize = 0;
        assert(route_views(routes@) =~= matching_routes(views.take(0), app_id));
        while i < self.streams.len()
            invariant
                views == stream_views(self.streams@),
                self@.streams == views,
                i <= self.streams.len(),
                route_views(routes@) == matching_routes(views.take(i as int), app_id),
            decreases self.streams.len() - i,
        {
            let stream = &self.streams[i];
            assert(views[i as int] == stream@);
            assert(views.take(i + 1).drop_last() =~= views.take(i as int));
            let ghost before = route_views(routes@);
            if lists_app(&stream.apps, app_id) {
                let ghost srs = stream_routes(stream@, app_id);
                let mut k: usize = 0;
                while k < stream.rooms.len()
                    invariant
                        k <= stream.rooms.len(),
                        stream@.apps.contains(app_id),
                        srs == stream_routes(stream@, app_id),
                        srs.len() == stream.rooms.len(),
                        route_views(routes@) == before + srs.take(k as int),
                    decreases stream.rooms.len() - k,
                {
                    let ghost prev = routes@;
                    let route = Route { room_id: stream.rooms[k].clone(), template: clone_opt_text(&stream.template_path) };
                    assert(route@ == srs[k as int]);
                    routes.push(route);
                    assert(route_views(routes@)[prev.len() as int] == srs[k as int]);
                    assert forall|j: int| 0 <= j < prev.len() implies #[trigger] route_views(routes@)[j]
                        == route_views(prev)[j] by {
                        assert(routes@[j] == prev[j]);
                    }
                    assert(route_views(routes@) =~= route_views(prev).push(srs[k as int]));
                    assert(before + srs.take(k + 1) =~= (before + srs.take(k as int)).push(srs[k as int]));
                    k = k + 1;
                }
                assert(srs.take(stream.rooms.len() as int) =~= srs);
            } else {
                assert(stream_routes(stream@, app_id) =~= Seq::<RouteView>::empty());
                assert(route_views(routes@) =~= before + stream_routes(stream@, app_id));
            }
            i = i + 1;
        }
        assert(views.take(self.streams.len() as int) =~= views);
        if routes.len() == 0 {
            match &self.default_room {
                Some(room) => {
                    routes.push(Route { room_id: room.clone(), template: None });
                    assert(route_views(routes@) =~= candidate_routes(self@, app_id));
                },
                None => {
                    assert(route_views(routes@) =~= candidate_routes(self@, app_id));
                },
            }
        }
        dedup_routes(routes)
    }
}


/// Stream `s` sends a message of application `app_id` along route `x`.
pub open spec fn stream_gives(s: StreamView, app_id: i64, x: RouteView) -> bool {
    s.apps.contains(app_id) && s.rooms.contains(x.room_id) && x.template == s.template
}

/// Some stream lists application `app_id` together with at least one room.
pub open spec fn some_stream_serves(streams: Seq<StreamView>, app_id: i64) -> bool {
    exists|i: int| 0 <= i < streams.len() && #[trigger] streams[i].apps.contains(app_id) && streams[i].rooms.len() > 0
}

proof fn lemma_stream_routes_contains(s: StreamView, app_id: i64, x: RouteView)
    ensures
        stream_routes(s, app_id).contains(x) <==> stream_gives(s, app_id, x),
{
    if s.apps.contains(app_id) {
        let m = stream_routes(s, app_id);
        if m.contains(x) {
            let k = choose|k: int| 0 <= k < m.len() && m[k] == x;
            assert(s.rooms[k] == x.room_id);
        }
        if stream_gives(s, app_id, x) {
            let k = choose|k: int| 0 <= k < s.rooms.len() && s.rooms[k] == x.room_id;
            assert(m[k] == x);
        }
    }
}

proof fn lemma_matching_routes_contains(streams: Seq<StreamView>, app_id: i64, x: RouteView)
    ensures
        matching_routes(streams, app_id).contains(x) <==> exists|i: int|
            0 <= i < streams.len() && stream_gives(#[trigger] streams[i], app_id, x),
    decreases streams.len(),
{
    if streams.len() > 0 {
        let p = streams.drop_last();
        let a = matching_routes(p, app_id);
        let b = stream_routes(streams.last(), app_id);
        lemma_matching_routes_contains(p, app_id, x);
        lemma_stream_routes_contains(streams.last(), app_id, x);
        if (a + b).contains(x) {
            let k = choose|k: int| 0 <= k < (a + b).len() && (a + b)[k] == x;
            if k < a.len() {
                assert(a[k] == x);
                let i = choose|i: int| 0 <= i < p.len() && stream_gives(#[trigger] p[i], app_id, x);
                assert(streams[i] == p[i]);
            } else {
                assert(b[k - a.len()] == x);
                assert(streams[streams.len() - 1] == streams.last());
            }
        }
        if exists|i: int| 0 <= i < streams.len() && stream_gives(#[trigger] streams[i], app_id, x) {
            let i = choose|i: int| 0 <= i < streams.len() && stream_gives(#[trigger] streams[i], app_id, x);
            if i < p.len() {
                assert(p[i] == streams[i]);
                let k = choose|k: int| 0 <= k < a.len() && a[k] == x;
                assert((a + b)[k] == x);
            } else {
                let k = choose|k: int| 0 <= k < b.len() && b[k] == x;
                assert((a + b)[a.len() + k] == x);
            }
        }
    }
}

proof fn lemma_matching_routes_empty(streams: Seq<StreamView>, app_id: i64)
    ensures
        matching_routes(streams, app_id).len() == 0 <==> !some_stream_serves(streams, app_id),
    decreases streams.len(),
{
    if streams.len() > 0 {
        let p = streams.drop_last();
        lemma_matching_routes_empty(p, app_id);
        let l = streams.last();
        if some_stream_serves(streams, app_id) {
            let i = choose|i: int| 0 <= i < streams.len() && #[trigger] streams[i].apps.contains(app_id) && streams[i].rooms.len() > 0;
            if i < p.len() {
                assert(p[i] == streams[i]);
                assert(some_stream_serves(p, app_id));
            } else {
                assert(stream_routes(l, app_id).len() == l.rooms.len());
            }
        }
        if some_stream_serves(p, app_id) {
            let i = choose|i: int| 0 <= i < p.len() && #[trigger] p[i].apps.contains(app_id) && p[i].rooms.len() > 0;
            assert(streams[i] == p[i]);
        }
        if l.apps.contains(app_id) && l.rooms.len() > 0 {
            assert(streams[streams.len() - 1] == l);
            assert(stream_routes(l, app_id).len() == l.rooms.len());
        }
    }
}

/// No two routes go to the same room with the same template path.
pub proof fn law_routes_distinct(r: RouterView, app_id: i64)
    ensures
        forall|i: int, j: int|
            0 <= i < j < routes_of(r, app_id).len() ==> route_key(#[trigger] routes_of(r, app_id)[i]) != route_key(
                #[trigger] routes_of(r, app_id)[j],
            ),
{
    let d = routes_of(r, app_id);
    lemma_dedup_by_distinct(candidate_routes(r, app_id), route_key_fn());
    assert forall|i: int, j: int| 0 <= i < j < d.len() implies route_key(#[trigger] d[i]) != route_key(#[trigger] d[j]) by {
        assert(route_key_fn()(d[i]) != route_key_fn()(d[j]));
    }
}

/// Every room of every stream that lists the application receives the
/// message, rendered with that stream's template path.
pub proof fn law_stream_rooms_receive(r: RouterView, app_id: i64, i: int, room: Seq<char>)
    requires
        0 <= i < r.streams.len(),
        r.streams[i].apps.contains(app_id),
        r.streams[i].rooms.contains(room),
    ensures
        has_key(
            routes_of(r, app_id),
            route_key_fn(),
            route_key(RouteView { room_id: room, template: r.streams[i].template }),
        ),
{
    let x = RouteView { room_id: room, template: r.streams[i].template };
    let c = candidate_routes(r, app_id);
    assert(stream_gives(r.streams[i], app_id, x));
    lemma_matching_routes_contains(r.streams, app_id, x);
    lemma_dedup_by_keys(c, route_key_fn(), route_key(x));
    let k = choose|k: int| 0 <= k < c.len() && c[k] == x;
    assert(route_key_fn()(c[k]) == route_key(x));
}

/// Every route comes from the configuration: from a stream that lists the
/// application and the room, with that stream's template, or, when no stream
/// serves the application, from the default room with the default template.
pub proof fn law_routes_come_from_config(r: RouterView, app_id: i64, x: RouteView)
    requires
        routes_of(r, app_id).contains(x),
    ensures
        (exists|i: int| 0 <= i < r.streams.len() && stream_gives(#[trigger] r.streams[i], app_id, x))
            || (!some_stream_serves(r.streams, app_id) && r.default_room == Some(x.room_id)
                && x.template is None),
{
    lemma_dedup_by_subset(candidate_routes(r, app_id), route_key_fn(), x);
    lemma_matching_routes_contains(r.streams, app_id, x);
    lemma_matching_routes_empty(r.streams, app_id);
}

/// When no stream serves the application, the message goes to the default
/// room alone, with the default template, or nowhere when there is none.
pub proof fn law_fallback_to_default(r: RouterView, app_id: i64)
    requires
        !some_stream_serves(r.streams, app_id),
    ensures
        routes_of(r, app_id) == match r.default_room {
            Some(d) => seq![RouteView { room_id: d, template: None }],
            None => Seq::<RouteView>::empty(),
        },
{
    lemma_matching_routes_empty(r.streams, app_id);
    let c = candidate_routes(r, app_id);
    match r.default_room {
        Some(d) => {
            assert(c.drop_last() =~= Seq::<RouteView>::empty());
            assert(!has_key(c.drop_last(), route_key_fn(), route_key(c.last())));
            assert(dedup_by(c.drop_last(), route_key_fn()) =~= Seq::<RouteView>::empty());
            assert(dedup_by(c, route_key_fn()) =~= seq![RouteView { room_id: d, template: None }]);
        },
        None => {},
    }
}

/// A message is dropped exactly when no stream serves its application and
/// no default room is configured.
pub proof fn law_dropped_iff_unrouted(r: RouterView, app_id: i64)
    ensures
        routes_of(r, app_id).len() == 0 <==> (!some_stream_serves(r.streams, app_id) && r.default_room is None),
{
    lemma_matching_routes_empty(r.streams, app_id);
    let c = candidate_routes(r, app_id);
    if c.len() > 0 {
        lemma_dedup_by_keys(c, route_key_fn(), route_key(c[0]));
        assert(route_key_fn()(c[0]) == route_key(c[0]));
        assert(has_key(c, route_key_fn(), route_key(c[0])));
    }
}

} // verus!
