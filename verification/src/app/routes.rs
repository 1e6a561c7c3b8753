//! Which route serves a session, and the servers that its plugins contribute.

use vstd::prelude::*;
use crate::app::command::{debug_form, debug_text};
use crate::app::{App, AppView, Effect, EffectView, Override, OverrideView};
use crate::draw::picker::{server_views, McpServer, ServerView};
use crate::login::{notice_text, Notice, NoticeView};
use crate::picker::{
    route_views, survives, Picker, PickerKind, PickerView, ProviderChoice, RouteView,
};
use crate::text;
use crate::text::{after_prefix, opt, trimmed};
use crate::transcript::{Cell, CellView};

verus! {

/// The route with a name, searched from `i` on.
pub open spec fn route_at(routes: Seq<RouteView>, route: Seq<char>, i: int) -> Option<int>
    decreases routes.len() - i,
{
    if i < 0 || i >= routes.len() {
        None
    } else if routes[i].route == route {
        Some(i)
    } else {
        route_at(routes, route, i + 1)
    }
}

/// The routes that survive a filter.
pub open spec fn shown_routes(routes: Seq<RouteView>, query: Seq<char>) -> Seq<RouteView>
    decreases routes.len(),
{
    if routes.len() == 0 {
        Seq::empty()
    } else {
        let before = shown_routes(routes.drop_last(), query);
        if survives(query, routes.last().route, routes.last().display_name) {
            before.push(routes.last())
        } else {
            before
        }
    }
}

/// The server with a name, searched from `i` on.
pub open spec fn server_at(servers: Seq<ServerView>, name: Seq<char>, i: int) -> Option<int>
    decreases servers.len() - i,
{
    if i < 0 || i >= servers.len() {
        None
    } else if servers[i].name == name {
        Some(i)
    } else {
        server_at(servers, name, i + 1)
    }
}

/// The servers that survive a filter.
pub open spec fn shown_servers(servers: Seq<ServerView>, query: Seq<char>) -> Seq<ServerView>
    decreases servers.len(),
{
    if servers.len() == 0 {
        Seq::empty()
    } else {
        let before = shown_servers(servers.drop_last(), query);
        if survives(query, servers.last().name, servers.last().name) {
            before.push(servers.last())
        } else {
            before
        }
    }
}

/// Whether a server waits for a token.
pub open spec fn wants_token(server: ServerView) -> bool {
    server.allowed && server.remote && !server.signed_in
}

/// The first server that waits for a token, searched from `i` on.
pub open spec fn first_waiting(servers: Seq<ServerView>, i: int) -> Option<int>
    decreases servers.len() - i,
{
    if i < 0 || i >= servers.len() {
        None
    } else if wants_token(servers[i]) {
        Some(i)
    } else {
        first_waiting(servers, i + 1)
    }
}

/// A server after its login moved on.
pub open spec fn moved_on(
    server: ServerView,
    name: Seq<char>,
    signed_in: bool,
    activity: Option<Seq<char>>,
) -> ServerView {
    if server.name == name {
        ServerView { signed_in: server.signed_in || signed_in, activity, ..server }
    } else {
        server
    }
}

/// Some servers after the login of one moved on.
pub open spec fn all_moved_on(
    servers: Seq<ServerView>,
    name: Seq<char>,
    signed_in: bool,
    activity: Option<Seq<char>>,
) -> Seq<ServerView> {
    servers.map_values(|s: ServerView| moved_on(s, name, signed_in, activity))
}

/// What some routes say.
pub open spec fn route_ref_views(routes: Seq<&ProviderChoice>) -> Seq<RouteView> {
    routes.map_values(|r: &ProviderChoice| r@)
}

/// What some servers say.
pub open spec fn server_ref_views(servers: Seq<&McpServer>) -> Seq<ServerView> {
    servers.map_values(|s: &McpServer| s@)
}

impl AppView {
    /// With another route serving the next session, or word of why not. A model id belongs to the
    /// route that serves it, so neither the model nor the list of them is carried across.
    pub open spec fn with_route(self, wanted: Seq<char>) -> AppView {
        if route_at(self.routes, wanted, 0) is None {
            self.said(
                CellView::Error(
                    "no provider "@ + debug_form(wanted)
                        + " is registered — /provider lists them"@,
                ),
            )
        } else if self.provider == Some(wanted) {
            self
        } else {
            AppView {
                provider: Some(wanted),
                model: Seq::empty(),
                models: Seq::empty(),
                ..self
            }.persisted(OverrideView::Provider(wanted))
        }
    }

    /// With the overlay of routes open on the one in force, or word of why there is none to open.
    pub open spec fn choosing_route(self) -> AppView {
        if self.routes.len() == 0 {
            self.said(
                CellView::Notice(
                    "no provider is registered — `keke doctor` shows which ones resolve"@,
                ),
            )
        } else {
            let at = match self.provider {
                Some(provider) => route_at(self.routes, provider, 0),
                None => None,
            };
            AppView {
                picker: Some(
                    PickerView {
                        kind: PickerKind::Provider,
                        query: Seq::empty(),
                        selected: match at {
                            Some(i) => i as nat,
                            None => 0,
                        },
                    },
                ),
                ..self
            }
        }
    }

    /// With the route that was named, or the list of them where none was.
    pub open spec fn provider_ordered(self, wanted: Seq<char>) -> AppView {
        if wanted.len() == 0 {
            self.choosing_route()
        } else {
            self.with_route(wanted)
        }
    }

    /// With the overlay of servers open on the first that waits for a token, or word of how to
    /// have one: nothing configured is a command to run, not a box with nothing in it.
    pub open spec fn choosing_server(self) -> AppView {
        if self.servers.len() == 0 {
            self.said(
                CellView::Notice("no MCP servers are configured — `keke mcp add` adds one"@),
            )
        } else {
            AppView {
                picker: Some(
                    PickerView {
                        kind: PickerKind::Mcp,
                        query: Seq::empty(),
                        selected: match first_waiting(self.servers, 0) {
                            Some(i) => i as nat,
                            None => 0,
                        },
                    },
                ),
                ..self
            }
        }
    }

    /// Why a server cannot be signed in to, where it cannot. Trust comes before a token: a server
    /// that will not be reached at all must not send anyone off to authenticate with it.
    pub open spec fn sign_in_fault(self, name: Seq<char>) -> Option<Seq<char>> {
        match server_at(self.servers, name, 0) {
            None => Some("no MCP server named `"@ + name + "` — /mcp lists them"@),
            Some(i) => if !self.servers[i].allowed {
                Some(
                    "`"@ + name + "` is held back — keke plugin trust "@ + self.servers[i].plugin,
                )
            } else if !self.servers[i].remote {
                Some("`"@ + name + "` is local, so there is nothing to sign in to"@)
            } else if !self.can_sign_in {
                Some("this session cannot sign in — run `keke mcp login "@ + name + "`"@)
            } else {
                None
            },
        }
    }

    /// With the login of a server at some point.
    pub open spec fn login_at(
        self,
        name: Seq<char>,
        signed_in: bool,
        activity: Option<Seq<char>>,
    ) -> AppView {
        AppView { servers: all_moved_on(self.servers, name, signed_in, activity), ..self }
    }

    /// With a login on its way.
    pub open spec fn login_started(self, name: Seq<char>) -> AppView {
        self.login_at(name, false, Some("authorizing..."@)).asked(EffectView::SignIn(name))
    }

    /// With a login that was asked for by name started, or word of why not.
    pub open spec fn signed_in_to(self, name: Seq<char>) -> AppView {
        match self.sign_in_fault(name) {
            Some(fault) => self.said(CellView::Error(fault)),
            None => self.login_started(name),
        }
    }

    /// With a login that was asked for on a row started, or word on the row of why not.
    pub open spec fn row_signed_in(self, name: Seq<char>) -> AppView {
        match self.sign_in_fault(name) {
            Some(fault) => self.login_at(name, false, Some(fault)),
            None => self.login_started(name),
        }
    }

    /// With what was asked about the servers.
    pub open spec fn mcp_ordered(self, words: Seq<char>) -> AppView {
        if words.len() == 0 {
            self.choosing_server()
        } else {
            match after_prefix(words, "login "@) {
                Some(name) => self.signed_in_to(trimmed(name)),
                None => self.said(
                    CellView::Error(
                        "/mcp lists the servers, and `/mcp login <name>` signs in to one"@,
                    ),
                ),
            }
        }
    }

    /// Whether the list of servers is on screen.
    pub open spec fn lists_servers(self) -> bool {
        self.picker is Some && self.picker->0.kind == PickerKind::Mcp
    }

    /// With word from the host. How a login goes belongs on the row of its server while that is on
    /// screen; with no row to go to it goes where everything else does rather than nowhere.
    pub open spec fn noticed(self, notice: NoticeView) -> AppView {
        match notice {
            NoticeView::McpProgress { name, message } => {
                let now = self.login_at(name, false, Some(message));
                if self.lists_servers() && server_at(self.servers, name, 0) is Some {
                    now
                } else {
                    now.said(CellView::Notice(notice_text(notice)))
                }
            },
            NoticeView::SignedIn(name) => self.login_at(name, true, None).said(
                CellView::Notice(notice_text(notice)),
            ),
            _ => self.said(CellView::Notice(notice_text(notice))),
        }
    }
}

/// Where a route stands in a list.
fn find_route(routes: &Vec<ProviderChoice>, route: &str) -> (r: Option<usize>)
    ensures
        match route_at(route_views(routes@), route@, 0) {
            Some(i) => r is Some && r->0 == i,
            None => r is None,
        },
        r is Some ==> r->0 < routes.len(),
{
    let ghost views = route_views(routes@);
    let mut i: usize = 0;
    while i < routes.len()
        invariant
            i <= routes.len(),
            views == route_views(routes@),
            route_at(views, route@, 0) == route_at(views, route@, i as int),
        decreases routes.len() - i,
    {
        assert(views[i as int] == routes@[i as int]@);
        if text::eq(routes[i].route.as_str(), route) {
            return Some(i);
        }
        i += 1;
    }
    None
}

/// Where a server stands in a list.
fn find_server(servers: &Vec<McpServer>, name: &str) -> (r: Option<usize>)
    ensures
        match server_at(server_views(servers@), name@, 0) {
            Some(i) => r is Some && r->0 == i,
            None => r is None,
        },
        r is Some ==> r->0 < servers.len() && servers@[r->0 as int]@.name == name@,
{
    let ghost views = server_views(servers@);
    let mut i: usize = 0;
    while i < servers.len()
        invariant
            i <= servers.len(),
            views == server_views(servers@),
            server_at(views, name@, 0) == server_at(views, name@, i as int),
        decreases servers.len() - i,
    {
        assert(views[i as int] == servers@[i as int]@);
        if text::eq(servers[i].name.as_str(), name) {
            return Some(i);
        }
        i += 1;
    }
    None
}

/// The first server that waits for a token.
fn find_waiting(servers: &Vec<McpServer>) -> (r: Option<usize>)
    ensures
        match first_waiting(server_views(servers@), 0) {
            Some(i) => r is Some && r->0 == i,
            None => r is None,
        },
{
    let ghost views = server_views(servers@);
    let mut i: usize = 0;
    while i < servers.len()
        invariant
            i <= servers.len(),
            views == server_views(servers@),
            first_waiting(views, 0) == first_waiting(views, i as int),
        decreases servers.len() - i,
    {
        assert(views[i as int] == servers@[i as int]@);
        if servers[i].allowed && servers[i].remote && !servers[i].signed_in {
            return Some(i);
        }
        i += 1;
    }
    None
}

impl App {
    /// The route that serves the session.
    pub fn with_provider(self, provider: String) -> (r: App)
        ensures
            r@ == (AppView { provider: Some(provider@), ..self@ }),
    {
        let mut app = self;
        app.provider = Some(provider);
        app
    }

    /// The routes a session could be pointed at. Only the host knows what is registered.
    pub fn with_provider_routes(self, routes: Vec<ProviderChoice>) -> (r: App)
        ensures
            r@ == (AppView { routes: route_views(routes@), ..self@ }),
    {
        let mut app = self;
        app.routes = routes;
        app
    }

    /// The servers that are configured, and whether a token has a place to be kept.
    pub fn with_mcp(self, servers: Vec<McpServer>, can_sign_in: bool) -> (r: App)
        ensures
            r@ == (AppView { servers: server_views(servers@), can_sign_in, ..self@ }),
    {
        let mut app = self;
        app.servers = servers;
        app.can_sign_in = can_sign_in;
        app
    }

    /// Which route serves.
    pub fn provider(&self) -> (r: Option<&str>)
        ensures
            match self@.provider {
                Some(provider) => r is Some && r->0@ == provider,
                None => r is None,
            },
    {
        match &self.provider {
            Some(provider) => Some(provider.as_str()),
            None => None,
        }
    }

    /// The routes a session could be pointed at.
    pub fn provider_routes(&self) -> (r: &Vec<ProviderChoice>)
        ensures
            route_views(r@) == self@.routes,
    {
        &self.routes
    }

    /// The servers that are configured.
    pub fn mcp_servers(&self) -> (r: &Vec<McpServer>)
        ensures
            server_views(r@) == self@.servers,
    {
        &self.servers
    }

    /// Whether an overlay is open.
    pub fn picker_open(&self) -> (r: bool)
        ensures
            r == self@.picker is Some,
    {
        self.picker.is_some()
    }

    /// The overlay, while it is open on a list of this kind.
    fn picker_of(&self, kind: PickerKind) -> (r: Option<&Picker>)
        ensures
            match self@.picker {
                Some(picker) => if picker.kind == kind {
                    r is Some && r->0@ == picker
                } else {
                    r is None
                },
                None => r is None,
            },
    {
        match &self.picker {
            Some(picker) => if picker.kind() == kind {
                Some(picker)
            } else {
                None
            },
            None => None,
        }
    }

    /// The overlay of routes, while it is open.
    pub fn provider_picker(&self) -> (r: Option<&Picker>)
        ensures
            match self@.picker {
                Some(picker) => if picker.kind == PickerKind::Provider {
                    r is Some && r->0@ == picker
                } else {
                    r is None
                },
                None => r is None,
            },
    {
        self.picker_of(PickerKind::Provider)
    }

    /// The overlay of servers, while it is open.
    pub fn mcp_picker(&self) -> (r: Option<&Picker>)
        ensures
            match self@.picker {
                Some(picker) => if picker.kind == PickerKind::Mcp {
                    r is Some && r->0@ == picker
                } else {
                    r is None
                },
                None => r is None,
            },
    {
        self.picker_of(PickerKind::Mcp)
    }

    /// The rows the overlay of routes is showing, after its filter.
    pub fn picker_providers(&self) -> (r: Vec<&ProviderChoice>)
        ensures
            route_ref_views(r@) == match self@.picker {
                Some(picker) => if picker.kind == PickerKind::Provider {
                    shown_routes(self@.routes, picker.query)
                } else {
                    Seq::empty()
                },
                None => Seq::empty(),
            },
    {
        let mut shown: Vec<&ProviderChoice> = Vec::new();
        assert(route_ref_views(shown@) =~= Seq::empty());
        let Some(picker) = self.provider_picker() else {
            return shown;
        };
        let ghost all = self@.routes;
        let mut i: usize = 0;
        assert(all.take(0) =~= Seq::empty());
        while i < self.routes.len()
            invariant
                i <= self.routes.len(),
                all == route_views(self.routes@),
                route_ref_views(shown@) == shown_routes(all.take(i as int), picker@.query),
            decreases self.routes.len() - i,
        {
            let ghost before = route_ref_views(shown@);
            assert(all[i as int] == self.routes@[i as int]@);
            assert(all.take(i as int + 1).drop_last() =~= all.take(i as int));
            if picker.matches(&self.routes[i]) {
                shown.push(&self.routes[i]);
                assert(route_ref_views(shown@) =~= before.push(all[i as int]));
            }
            i += 1;
        }
        assert(all.take(i as int) =~= all);
        shown
    }

    /// The rows the overlay of servers is showing, after its filter.
    pub fn picker_mcp(&self) -> (r: Vec<&McpServer>)
        ensures
            server_ref_views(r@) == match self@.picker {
                Some(picker) => if picker.kind == PickerKind::Mcp {
                    shown_servers(self@.servers, picker.query)
                } else {
                    Seq::empty()
                },
                None => Seq::empty(),
            },
    {
        let mut shown: Vec<&McpServer> = Vec::new();
        assert(server_ref_views(shown@) =~= Seq::empty());
        let Some(picker) = self.mcp_picker() else {
            return shown;
        };
        let ghost all = self@.servers;
        let mut i: usize = 0;
        assert(all.take(0) =~= Seq::empty());
        while i < self.servers.len()
            invariant
                i <= self.servers.len(),
                all == server_views(self.servers@),
                server_ref_views(shown@) == shown_servers(all.take(i as int), picker@.query),
            decreases self.servers.len() - i,
        {
            let ghost before = server_ref_views(shown@);
            assert(all[i as int] == self.servers@[i as int]@);
            assert(all.take(i as int + 1).drop_last() =~= all.take(i as int));
            if picker.matches(&self.servers[i]) {
                shown.push(&self.servers[i]);
                assert(server_ref_views(shown@) =~= before.push(all[i as int]));
            }
            i += 1;
        }
        assert(all.take(i as int) =~= all);
        shown
    }

    /// What the login of a server is doing, where one is in flight.
    pub fn mcp_activity(&self, name: &str) -> (r: Option<&str>)
        ensures
            match server_at(self@.servers, name@, 0) {
                Some(i) => match self@.servers[i].activity {
                    Some(activity) => r is Some && r->0@ == activity,
                    None => r is None,
                },
                None => r is None,
            },
    {
        match find_server(&self.servers, name) {
            Some(at) => {
                assert(self@.servers[at as int] == self.servers@[at as int]@);
                match &self.servers[at].activity {
                    Some(activity) => Some(activity.as_str()),
                    None => None,
                }
            },
            None => None,
        }
    }

    /// Points the next session at a route, or says why not.
    pub fn set_provider_aloud(&mut self, wanted: &str)
        ensures
            final(self)@ == old(self)@.with_route(wanted@),
    {
        if find_route(&self.routes, wanted).is_none() {
            let quoted = debug_text(wanted);
            let said = text::concat3(
                "no provider ",
                quoted.as_str(),
                " is registered — /provider lists them",
            );
            self.say(Cell::Error(said));
            return ;
        }
        if let Some(provider) = &self.provider {
            if text::eq(provider.as_str(), wanted) {
                return ;
            }
        }
        self.provider = Some(text::copy(wanted));
        self.model = String::new();
        self.models = Vec::new();
        assert(self@.model =~= Seq::empty());
        assert(self@.models =~= Seq::empty());
        self.ask(Effect::Persist(Override::Provider(text::copy(wanted))));
    }

    /// Opens the overlay of routes, or says why there is nothing to open.
    pub fn open_provider_picker(&mut self)
        ensures
            final(self)@ == old(self)@.choosing_route(),
    {
        assert(self@.routes.len() == self.routes.len());
        if self.routes.len() == 0 {
            self.say(
                Cell::Notice(
                    text::copy(
                        "no provider is registered — `keke doctor` shows which ones resolve",
                    ),
                ),
            );
            return ;
        }
        let found = match &self.provider {
            Some(provider) => find_route(&self.routes, provider.as_str()),
            None => None,
        };
        let at: usize = match found {
            Some(at) => at,
            None => 0,
        };
        self.picker = Some(Picker::at(PickerKind::Provider, at));
    }

    /// `/provider`: the list of routes, or the one that is named.
    pub(crate) fn order_provider(&mut self, arguments: &str)
        ensures
            final(self)@ == old(self)@.provider_ordered(trimmed(arguments@)),
    {
        let wanted = text::trim(arguments);
        if wanted.as_str().unicode_len() == 0 {
            self.open_provider_picker();
        } else {
            self.set_provider_aloud(wanted.as_str());
        }
    }

    /// Opens the overlay of servers, or says how to have one.
    pub fn open_mcp_picker(&mut self)
        ensures
            final(self)@ == old(self)@.choosing_server(),
    {
        assert(self@.servers.len() == self.servers.len());
        if self.servers.len() == 0 {
            self.say(
                Cell::Notice(
                    text::copy("no MCP servers are configured — `keke mcp add` adds one"),
                ),
            );
            return ;
        }
        let at: usize = match find_waiting(&self.servers) {
            Some(at) => at,
            None => 0,
        };
        self.picker = Some(Picker::at(PickerKind::Mcp, at));
    }

    fn find_fault(&self, name: &str) -> (r: Option<String>)
        ensures
            opt(r) == self@.sign_in_fault(name@),
    {
        match find_server(&self.servers, name) {
            None => Some(text::concat3("no MCP server named `", name, "` — /mcp lists them")),
            Some(at) => {
                assert(self@.servers[at as int] == self.servers@[at as int]@);
                let server = &self.servers[at];
                if !server.allowed {
                    let mut said = text::concat3(
                        "`",
                        name,
                        "` is held back — keke plugin trust ",
                    );
                    said.append(server.plugin.as_str());
                    Some(said)
                } else if !server.remote {
                    Some(
                        text::concat3("`", name, "` is local, so there is nothing to sign in to"),
                    )
                } else if !self.can_sign_in {
                    Some(
                        text::concat3(
                            "this session cannot sign in — run `keke mcp login ",
                            name,
                            "`",
                        ),
                    )
                } else {
                    None
                }
            },
        }
    }

    fn set_login(&mut self, name: &str, signed_in: bool, activity: Option<String>)
        ensures
            final(self)@ == old(self)@.login_at(name@, signed_in, opt(activity)),
    {
        let ghost start = self@;
        let ghost after = all_moved_on(start.servers, name@, signed_in, opt(activity));
        let mut i: usize = 0;
        assert(self@.servers.len() == self.servers.len());
        while i < self.servers.len()
            invariant
                i <= self.servers.len() == start.servers.len(),
                after == all_moved_on(start.servers, name@, signed_in, opt(activity)),
                self@ == (AppView { servers: self@.servers, ..start }),
                self@.servers == server_views(self.servers@),
                forall|k: int| 0 <= k < i ==> #[trigger] self@.servers[k] == after[k],
                forall|k: int|
                    i <= k < start.servers.len() ==> #[trigger] self@.servers[k]
                        == start.servers[k],
            decreases self.servers.len() - i,
        {
            let ghost before = self@;
            assert(before.servers[i as int] == self.servers@[i as int]@);
            if text::eq(self.servers[i].name.as_str(), name) {
                let said = text::copy_opt(&activity);
                self.servers[i].activity = said;
                if signed_in {
                    self.servers[i].signed_in = true;
                }
            }
            assert(self@.servers =~= before.servers.update(i as int, after[i as int]));
            i += 1;
        }
        assert(self@.servers =~= after);
    }

    fn start_login(&mut self, name: &str)
        ensures
            final(self)@ == old(self)@.login_started(name@),
    {
        self.set_login(name, false, Some(text::copy("authorizing...")));
        self.ask(Effect::SignIn(text::copy(name)));
    }

    /// Signs in to a server that was named, or says why not.
    pub fn sign_in(&mut self, name: &str)
        ensures
            final(self)@ == old(self)@.signed_in_to(name@),
    {
        match self.find_fault(name) {
            Some(fault) => {
                self.say(Cell::Error(fault));
            },
            None => {
                self.start_login(name);
            },
        }
    }

    /// Signs in to the server of a row, or says on the row why not.
    pub(crate) fn sign_in_on_row(&mut self, name: &str)
        ensures
            final(self)@ == old(self)@.row_signed_in(name@),
    {
        match self.find_fault(name) {
            Some(fault) => {
                self.set_login(name, false, Some(fault));
            },
            None => {
                self.start_login(name);
            },
        }
    }

    /// `/mcp`: the list of servers, or a login.
    pub(crate) fn order_mcp(&mut self, arguments: &str)
        ensures
            final(self)@ == old(self)@.mcp_ordered(trimmed(arguments@)),
    {
        let words = text::trim(arguments);
        if words.as_str().unicode_len() == 0 {
            self.open_mcp_picker();
            return ;
        }
        match text::strip_prefix(words.as_str(), "login ") {
            Some(rest) => {
                let name = text::trim(rest.as_str());
                self.sign_in(name.as_str());
            },
            None => {
                self.say(
                    Cell::Error(
                        text::copy(
                            "/mcp lists the servers, and `/mcp login <name>` signs in to one",
                        ),
                    ),
                );
            },
        }
    }

    /// The route of a row of the overlay.
    pub(crate) fn chosen_route(&self, at: usize) -> (r: Option<String>)
        requires
            self@.picker is Some,
            self@.picker->0.kind == PickerKind::Provider,
        ensures
            ({
                let shown = shown_routes(self@.routes, self@.picker->0.query);
                opt(r) == if at < shown.len() {
                    Some(shown[at as int].route)
                } else {
                    None
                }
            }),
    {
        let shown = self.picker_providers();
        assert(route_ref_views(shown@).len() == shown.len());
        if at < shown.len() {
            assert(route_ref_views(shown@)[at as int] == shown@[at as int]@);
            Some(shown[at].route.clone())
        } else {
            None
        }
    }

    /// The server of a row of the overlay.
    pub(crate) fn chosen_server(&self, at: usize) -> (r: Option<String>)
        requires
            self@.picker is Some,
            self@.picker->0.kind == PickerKind::Mcp,
        ensures
            ({
                let shown = shown_servers(self@.servers, self@.picker->0.query);
                opt(r) == if at < shown.len() {
                    Some(shown[at as int].name)
                } else {
                    None
                }
            }),
    {
        let shown = self.picker_mcp();
        assert(server_ref_views(shown@).len() == shown.len());
        if at < shown.len() {
            assert(server_ref_views(shown@)[at as int] == shown@[at as int]@);
            Some(shown[at].name.clone())
        } else {
            None
        }
    }

    /// Shows something the host wants said without printing over the interface. A login URL or a
    /// device code has to stay put long enough to be read off the screen and typed elsewhere.
    pub fn apply_notice(&mut self, notice: Notice)
        ensures
            final(self)@ == old(self)@.noticed(notice@),
    {
        let said = notice.message();
        match notice {
            Notice::McpProgress { name, message } => {
                let listed = self.mcp_picker().is_some() && find_server(
                    &self.servers,
                    name.as_str(),
                ).is_some();
                self.set_login(name.as_str(), false, Some(message));
                if !listed {
                    self.say(Cell::Notice(said));
                }
            },
            Notice::SignedIn(name) => {
                self.set_login(name.as_str(), true, None);
                self.say(Cell::Notice(said));
            },
            _ => {
                self.say(Cell::Notice(said));
            },
        }
    }
}

/// A server of a list stays where it is when a login moves on.
proof fn lemma_stays(
    servers: Seq<ServerView>,
    name: Seq<char>,
    signed_in: bool,
    activity: Option<Seq<char>>,
    i: int,
)
    requires
        0 <= i,
    ensures
        server_at(all_moved_on(servers, name, signed_in, activity), name, i) == server_at(
            servers,
            name,
            i,
        ),
        match server_at(servers, name, i) {
            Some(at) => i <= at < servers.len() && servers[at].name == name,
            None => true,
        },
    decreases servers.len() - i,
{
    if i < servers.len() {
        assert(all_moved_on(servers, name, signed_in, activity)[i] == moved_on(
            servers[i],
            name,
            signed_in,
            activity,
        ));
        lemma_stays(servers, name, signed_in, activity, i + 1);
    }
}

// Laws.

/// A route nothing is registered under is refused by name: nothing moves and nothing is written.
pub proof fn a_refused_route_moves_nothing(app: AppView, wanted: Seq<char>)
    requires
        route_at(app.routes, wanted, 0) is None,
    ensures
        app.with_route(wanted).provider == app.provider,
        app.with_route(wanted).model == app.model,
        app.with_route(wanted).models == app.models,
        app.with_route(wanted).effects == app.effects,
{
}

/// A model is not carried from one route to another, nor written down for it: a pair that no run
/// ever used.
pub proof fn a_model_stays_with_its_route(app: AppView, wanted: Seq<char>)
    requires
        route_at(app.routes, wanted, 0) is Some,
        app.provider != Some(wanted),
    ensures
        app.with_route(wanted).provider == Some(wanted),
        app.with_route(wanted).model.len() == 0,
        app.with_route(wanted).models.len() == 0,
        app.with_route(wanted).effects == app.effects.push(
            EffectView::Persist(OverrideView::Provider(wanted)),
        ),
{
}

/// A login starts only for a server that is trusted, remote and known, on a surface that can keep
/// its token; and then it does. However it was asked for, nothing else reaches the host.
pub proof fn a_login_starts_where_it_can_end(app: AppView, name: Seq<char>)
    ensures
        ({
            let at = server_at(app.servers, name, 0);
            let can = at is Some && app.servers[at->0].allowed && app.servers[at->0].remote
                && app.can_sign_in;
            let effects = if can {
                app.effects.push(EffectView::SignIn(name))
            } else {
                app.effects
            };
            &&& app.signed_in_to(name).effects == effects
            &&& app.row_signed_in(name).effects == effects
        }),
{
}

/// A login that was asked for on a row says what it has to say there: the conversation stays as it
/// is, and the list stays open.
pub proof fn a_row_keeps_its_news_to_itself(app: AppView, name: Seq<char>)
    requires
        server_at(app.servers, name, 0) is Some,
    ensures
        app.row_signed_in(name).transcript == app.transcript,
        app.row_signed_in(name).picker == app.picker,
        app.row_signed_in(name).servers[server_at(app.servers, name, 0)->0].activity is Some,
{
    lemma_stays(app.servers, name, false, None, 0);
}

/// News of a login is never lost: it is on the row of its server where that is on screen, and in
/// the conversation where it is not.
pub proof fn news_of_a_login_is_shown(app: AppView, name: Seq<char>, message: Seq<char>)
    ensures
        ({
            let notice = NoticeView::McpProgress { name, message };
            let at = server_at(app.servers, name, 0);
            let after = app.noticed(notice);
            if app.lists_servers() && at is Some {
                after.servers[at->0].activity == Some(message) && after.transcript
                    == app.transcript
            } else {
                after.transcript.cells == app.transcript.cells.push(
                    CellView::Notice(notice_text(notice)),
                )
            }
        }),
{
    lemma_stays(app.servers, name, false, Some(message), 0);
}

/// A finished login stops being in flight, and the list stops asking for one.
pub proof fn a_finished_login_is_over(app: AppView, name: Seq<char>)
    requires
        server_at(app.servers, name, 0) is Some,
    ensures
        ({
            let after = app.noticed(NoticeView::SignedIn(name));
            let at = server_at(after.servers, name, 0);
            &&& at == server_at(app.servers, name, 0)
            &&& after.servers[at->0].signed_in
            &&& after.servers[at->0].activity is None
            &&& !wants_token(after.servers[at->0])
        }),
{
    lemma_stays(app.servers, name, true, None, 0);
}

/// The overlays on the routes and on the servers list just what survives the filter, in order.
pub proof fn an_overlay_lists_what_survives(
    routes: Seq<RouteView>,
    servers: Seq<ServerView>,
    query: Seq<char>,
)
    ensures
        shown_routes(routes, query) == routes.filter(
            |r: RouteView| survives(query, r.route, r.display_name),
        ),
        shown_servers(servers, query) == servers.filter(
            |s: ServerView| survives(query, s.name, s.name),
        ),
    decreases routes.len() + servers.len(),
{
    reveal(Seq::filter);
    if routes.len() > 0 {
        an_overlay_lists_what_survives(routes.drop_last(), servers, query);
    } else if servers.len() > 0 {
        an_overlay_lists_what_survives(routes, servers.drop_last(), query);
    }
}

/// A route that is registered and not in force serves from then on: the configuration is told, and
/// neither the model nor the list of models is carried over.
pub proof fn a_switch_of_routes_is_kept(app: AppView, wanted: Seq<char>)
    requires
        exists|i: int| 0 <= i < app.routes.len() && (#[trigger] app.routes[i]).route == wanted,
    ensures
        app.provider == Some(wanted) ==> app.with_route(wanted) == app,
        app.provider != Some(wanted) ==> {
            let next = app.with_route(wanted);
            &&& next.provider == Some(wanted)
            &&& next.model.len() == 0 && next.models.len() == 0
            &&& next.effects == app.effects.push(
                EffectView::Persist(OverrideView::Provider(wanted)),
            )
            &&& next.transcript == app.transcript
            &&& next.approval == app.approval && next.effort == app.effort
        },
{
    let i = choose|i: int| 0 <= i < app.routes.len() && (#[trigger] app.routes[i]).route == wanted;
    lemma_route_found(app.routes, wanted, 0, i);
}

proof fn lemma_route_found(routes: Seq<RouteView>, route: Seq<char>, i: int, k: int)
    requires
        0 <= i <= k < routes.len(),
        routes[k].route == route,
    ensures
        route_at(routes, route, i) is Some,
    decreases k - i,
{
    if routes[i].route != route {
        lemma_route_found(routes, route, i + 1, k);
    }
}

/// News of a login changes what is said of its server and of no other: a server that was signed in
/// to stays so, and nothing else of it changes.
pub proof fn a_login_touches_its_server_only(
    servers: Seq<ServerView>,
    name: Seq<char>,
    signed_in: bool,
    activity: Option<Seq<char>>,
    i: int,
)
    requires
        0 <= i < servers.len(),
    ensures
        ({
            let next = all_moved_on(servers, name, signed_in, activity);
            &&& next.len() == servers.len()
            &&& servers[i].name != name ==> next[i] == servers[i]
            &&& servers[i].name == name ==> {
                &&& next[i].activity == activity
                &&& next[i].signed_in == (servers[i].signed_in || signed_in)
                &&& next[i].name == servers[i].name && next[i].plugin == servers[i].plugin
                &&& next[i].transport == servers[i].transport
                &&& next[i].allowed == servers[i].allowed && next[i].remote == servers[i].remote
            }
        }),
{
}

/// The list of servers opens on the first that waits for a token: one that is trusted and remote and
/// not signed in to.
pub proof fn the_first_waiting_server_is_found(servers: Seq<ServerView>, i: int)
    requires
        0 <= i <= servers.len(),
    ensures
        match first_waiting(servers, i) {
            Some(k) => i <= k < servers.len() && servers[k].allowed && servers[k].remote
                && !servers[k].signed_in && forall|j: int|
                i <= j < k ==> !((#[trigger] servers[j]).allowed && servers[j].remote
                    && !servers[j].signed_in),
            None => forall|j: int|
                i <= j < servers.len() ==> !((#[trigger] servers[j]).allowed && servers[j].remote
                    && !servers[j].signed_in),
        },
    decreases servers.len() - i,
{
    if i < servers.len() && !wants_token(servers[i]) {
        the_first_waiting_server_is_found(servers, i + 1);
    }
}

} // verus!
