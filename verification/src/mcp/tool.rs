//! The tools that servers offer, wearing the tool interface.

use vstd::prelude::*;
use crate::protocol::{
    block_views, json_view, json_views, lemma_json_views, text_member, BlockView, ContentBlock,
    Json, JsonView,
};
use crate::text;
use crate::text::{joined, texts};
use crate::tool::{
    ToolCapabilities, ToolDescription, ToolError, ToolErrorView, ToolId, ToolKind,
};

verus! {

/// What a tool of a server returned.
#[derive(Debug, PartialEq, Eq)]
pub struct McpToolOutput {
    /// The namespaced id of the tool that produced this.
    pub tool: String,
    /// The server's content blocks, kept verbatim for replay.
    pub content: Vec<Json>,
}

/// How a block of a server's content reads. A block that has no representation is reported as
/// what it is rather than dropped, so the model is not left reasoning about a result it silently
/// never saw.
pub open spec fn block_text(block: JsonView) -> Seq<char> {
    match text_member(block, "text"@) {
        Some(t) => t,
        None => "["@ + match text_member(block, "type"@) {
            Some(kind) => kind,
            None => "unrecognized"@,
        } + " content omitted]"@,
    }
}

/// How a server's content reads, block by block.
pub open spec fn content_texts(content: Seq<JsonView>) -> Seq<Seq<char>> {
    if content.len() == 0 {
        seq!["(the tool returned no content)"@]
    } else {
        content.map_values(|b: JsonView| block_text(b))
    }
}

/// Blocks of these texts.
pub open spec fn text_blocks(parts: Seq<Seq<char>>) -> Seq<BlockView> {
    parts.map_values(|t: Seq<char>| BlockView::Text { text: t })
}

/// How a block of a server's content reads.
fn read_block(block: &Json) -> (r: String)
    ensures
        r@ == block_text(block@),
{
    match block.get_text("text") {
        Some(t) => text::copy(t),
        None => {
            let kind = match block.get_text("type") {
                Some(kind) => kind,
                None => "unrecognized",
            };
            text::concat3("[", kind, " content omitted]")
        },
    }
}

/// How a server's content reads, block by block.
fn read_content(content: &Vec<Json>) -> (r: Vec<String>)
    ensures
        texts(r@) == content_texts(json_views(content@)),
{
    let mut parts = text::no_texts();
    proof {
        lemma_json_views(content@);
    }
    if content.len() == 0 {
        text::push_text(&mut parts, "(the tool returned no content)");
        assert(texts(parts@) =~= content_texts(json_views(content@)));
        return parts;
    }
    let ghost all = content_texts(json_views(content@));
    let mut i: usize = 0;
    assert(texts(parts@) =~= all.take(0));
    while i < content.len()
        invariant
            i <= content.len(),
            0 < content.len(),
            json_views(content@).len() == content.len(),
            all == content_texts(json_views(content@)),
            forall|k: int|
                0 <= k < content.len() ==> #[trigger] json_views(content@)[k] == json_view(
                    content@[k],
                ),
            texts(parts@) == all.take(i as int),
        decreases content.len() - i,
    {
        assert(json_views(content@)[i as int] == json_view(content@[i as int]));
        let part = read_block(&content[i]);
        text::push_text(&mut parts, part.as_str());
        i += 1;
        assert(all.take(i as int) =~= all.take(i - 1).push(all[i - 1]));
    }
    assert(all.take(i as int) =~= all);
    parts
}

impl McpToolOutput {
    /// What the model sees of the outcome.
    pub fn render(&self) -> (r: Vec<ContentBlock>)
        ensures
            block_views(r@) == text_blocks(content_texts(json_views(self.content@))),
    {
        let parts = read_content(&self.content);
        let ghost all = text_blocks(texts(parts@));
        let mut blocks: Vec<ContentBlock> = Vec::new();
        let mut i: usize = 0;
        assert(block_views(blocks@) =~= all.take(0));
        while i < parts.len()
            invariant
                i <= parts.len(),
                all == text_blocks(texts(parts@)),
                block_views(blocks@) == all.take(i as int),
            decreases parts.len() - i,
        {
            let ghost before = blocks@;
            blocks.push(ContentBlock::text(parts[i].as_str()));
            assert(blocks@.drop_last() =~= before);
            assert(texts(parts@)[i as int] == parts@[i as int]@);
            i += 1;
            assert(all.take(i as int) =~= all.take(i - 1).push(all[i - 1]));
        }
        assert(all.take(i as int) =~= all);
        blocks
    }
}

/// A tool as its server lists it.
#[derive(Debug, PartialEq, Eq)]
pub struct RemoteTool {
    pub name: String,
    pub description: String,
    /// The argument schema the server declared for this tool.
    pub input_schema: Json,
}

/// What a [`RemoteTool`] says.
pub struct RemoteToolView {
    pub name: Seq<char>,
    pub description: Seq<char>,
    pub input_schema: JsonView,
}

impl View for RemoteTool {
    type V = RemoteToolView;

    open spec fn view(&self) -> RemoteToolView {
        RemoteToolView {
            name: self.name@,
            description: self.description@,
            input_schema: self.input_schema@,
        }
    }
}

/// One tool on one server.
#[derive(Debug, PartialEq, Eq)]
pub struct McpTool {
    remote_name: String,
    id: ToolId,
    description: String,
    input_schema: Json,
    call_timeout_millis: u64,
}

/// What an [`McpTool`] says.
pub struct McpToolView {
    /// The name to send back to the server, which is not the namespaced id.
    pub remote_name: Seq<char>,
    pub id: Seq<char>,
    pub description: Seq<char>,
    pub input_schema: JsonView,
    pub call_timeout_millis: u64,
}

impl View for McpTool {
    type V = McpToolView;

    closed spec fn view(&self) -> McpToolView {
        McpToolView {
            remote_name: self.remote_name@,
            id: self.id@,
            description: self.description@,
            input_schema: self.input_schema@,
            call_timeout_millis: self.call_timeout_millis,
        }
    }
}

/// The id of a tool: `plugin:server:tool`.
pub open spec fn namespaced(plugin: Seq<char>, server: Seq<char>, tool: Seq<char>) -> Seq<char> {
    plugin + ":"@ + server + ":"@ + tool
}

/// What a tool is described as.
pub open spec fn described(description: Seq<char>) -> Seq<char> {
    if description.len() == 0 {
        "An MCP tool. The server provided no description."@
    } else {
        description
    }
}

/// The tool that a server of a plugin lists.
pub open spec fn wrapped(
    plugin: Seq<char>,
    server: Seq<char>,
    remote: RemoteToolView,
    call_timeout_millis: u64,
) -> McpToolView {
    McpToolView {
        remote_name: remote.name,
        id: namespaced(plugin, server, remote.name),
        description: described(remote.description),
        input_schema: remote.input_schema,
        call_timeout_millis,
    }
}

/// What a tool is described as.
pub fn describe(description: &str) -> (r: String)
    ensures
        r@ == described(description@),
{
    if description.unicode_len() == 0 {
        text::copy("An MCP tool. The server provided no description.")
    } else {
        text::copy(description)
    }
}

/// What a call came to: the content that the server returned, and whether it says the call
/// failed.
#[derive(Debug, PartialEq, Eq)]
pub struct CallResult {
    pub content: Vec<Json>,
    pub is_error: bool,
}

/// How long a call may take: what the engine enforces, and never more than the tool's own
/// ceiling.
pub open spec fn budget_of(enforced: Option<u64>, ceiling: u64) -> u64 {
    match enforced {
        Some(millis) => if millis < ceiling {
            millis
        } else {
            ceiling
        },
        None => ceiling,
    }
}

impl McpTool {
    /// Namespaced `plugin:server:tool`.
    ///
    /// Two plugins may ship servers exposing the same tool name. Building the id from the owning
    /// plugin and server makes the collision impossible instead of making it something to detect
    /// and report: plugin names are unique within a resolved set, and server names are unique
    /// within a plugin.
    pub fn new(plugin: &str, server: &str, remote: RemoteTool, call_timeout_millis: u64) -> (r:
        McpTool)
        ensures
            r@ == wrapped(plugin@, server@, remote@, call_timeout_millis),
    {
        let mut id = text::concat3(plugin, ":", server);
        id.append(":");
        id.append(remote.name.as_str());
        McpTool {
            id: ToolId::new(id.as_str()),
            description: describe(remote.description.as_str()),
            remote_name: remote.name,
            input_schema: remote.input_schema,
            call_timeout_millis,
        }
    }

    /// The tool's id.
    pub fn id(&self) -> (r: ToolId)
        ensures
            r@ == self@.id,
    {
        self.id.clone()
    }

    /// The name to send back to the server.
    pub fn remote_name(&self) -> (r: &str)
        ensures
            r@ == self@.remote_name,
    {
        self.remote_name.as_str()
    }

    /// The shape of the arguments. It comes from the server: its tools' argument schemas are not
    /// known until it has been asked.
    pub fn input_schema_override(&self) -> (r: Option<Json>)
        ensures
            r is Some,
            r->0@ == self@.input_schema,
    {
        Some(self.input_schema.copy())
    }

    /// What the model is told of the tool.
    pub fn description(&self) -> (r: ToolDescription)
        ensures
            r.text@ == self@.description,
    {
        ToolDescription::new(self.description.as_str())
    }

    /// A server is an arbitrary program: nothing is known about what a given tool touches, so the
    /// honest classification is the unrestricted one, and with it the conservative concurrency
    /// answer.
    pub fn capabilities(&self) -> (r: ToolCapabilities)
        ensures
            r == (ToolCapabilities {
                kind: ToolKind::Execute,
                concurrency_safe: false,
                timeout_millis: Some(self@.call_timeout_millis),
            }),
    {
        ToolCapabilities {
            timeout_millis: Some(self.call_timeout_millis),
            ..ToolCapabilities::of_kind(ToolKind::Execute)
        }
    }

    /// How long a call may take, so that there is one budget rather than two that drift apart.
    pub fn budget(&self, enforced: Option<u64>) -> (r: u64)
        ensures
            r == budget_of(enforced, self@.call_timeout_millis),
    {
        match enforced {
            Some(millis) => if millis < self.call_timeout_millis {
                millis
            } else {
                self.call_timeout_millis
            },
            None => self.call_timeout_millis,
        }
    }

    /// There is no runtime to call on.
    pub fn unavailable() -> (r: ToolError)
        ensures
            r@ == (ToolErrorView::Execution {
                code: "mcp_unavailable"@,
                message: "keke could not start the runtime MCP servers run on"@,
            }),
    {
        ToolError::custom(
            "mcp_unavailable",
            text::copy("keke could not start the runtime MCP servers run on"),
        )
    }

    /// What a call came to. A server reports a tool's own failure in its result; it is still a
    /// failure, and swallowing it would hand the model a successful-looking empty result.
    pub fn outcome(&self, result: Result<CallResult, String>) -> (r: Result<
        McpToolOutput,
        ToolError,
    >)
        ensures
            match result {
                Err(message) => r is Err && r->Err_0@ == (ToolErrorView::Execution {
                    code: "mcp_call_failed"@,
                    message: message@,
                }),
                Ok(result) => if result.is_error {
                    r is Err && r->Err_0@ == (ToolErrorView::Execution {
                        code: "mcp_tool_error"@,
                        message: joined(content_texts(json_views(result.content@)), "\n"@),
                    })
                } else {
                    r is Ok && r->Ok_0.tool@ == self@.id && r->Ok_0.content == result.content
                },
            },
    {
        match result {
            Err(message) => Err(ToolError::custom("mcp_call_failed", message)),
            Ok(result) => if result.is_error {
                let parts = read_content(&result.content);
                Err(ToolError::custom("mcp_tool_error", text::join(&parts, "\n")))
            } else {
                Ok(
                    McpToolOutput {
                        tool: text::copy(self.id.as_str()),
                        content: result.content,
                    },
                )
            },
        }
    }
}

/// What a server of a plugin lists, or why it lists nothing.
#[derive(Debug, PartialEq, Eq)]
pub struct Listing {
    pub plugin: String,
    pub server: String,
    pub tools: Result<Vec<RemoteTool>, String>,
}

/// What some tools say.
pub open spec fn tool_views(tools: Seq<McpTool>) -> Seq<McpToolView> {
    tools.map_values(|t: McpTool| t@)
}

/// What some listed tools say.
pub open spec fn remote_views(tools: Seq<RemoteTool>) -> Seq<RemoteToolView> {
    tools.map_values(|t: RemoteTool| t@)
}

/// The tools that a server of a plugin lists, wrapped.
pub open spec fn all_wrapped(
    plugin: Seq<char>,
    server: Seq<char>,
    tools: Seq<RemoteToolView>,
    call_timeout_millis: u64,
) -> Seq<McpToolView> {
    tools.map_values(|t: RemoteToolView| wrapped(plugin, server, t, call_timeout_millis))
}

/// The tools of a listing: none where the server is unavailable.
pub open spec fn listed(listing: Listing, call_timeout_millis: u64) -> Seq<McpToolView> {
    match listing.tools {
        Ok(tools) => all_wrapped(
            listing.plugin@,
            listing.server@,
            remote_views(tools@),
            call_timeout_millis,
        ),
        Err(_) => Seq::empty(),
    }
}

/// The tools of all listings, in their order.
pub open spec fn discovered(listings: Seq<Listing>, call_timeout_millis: u64) -> Seq<McpToolView>
    decreases listings.len(),
{
    if listings.len() == 0 {
        Seq::empty()
    } else {
        listed(listings[0], call_timeout_millis) + discovered(
            listings.drop_first(),
            call_timeout_millis,
        )
    }
}

/// Wraps the tools of one listing.
fn wrap_listing(listing: Listing, call_timeout_millis: u64, tools: &mut Vec<McpTool>)
    ensures
        tool_views(final(tools)@) == tool_views(old(tools)@) + listed(
            listing,
            call_timeout_millis,
        ),
{
    let ghost start = tool_views(tools@);
    match listing.tools {
        Err(_) => {
            assert(start + Seq::<McpToolView>::empty() =~= start);
        },
        Ok(remote) => {
            let ghost all = listed(listing, call_timeout_millis);
            let mut remote = remote;
            assert(all =~= all_wrapped(
                listing.plugin@,
                listing.server@,
                remote_views(remote@),
                call_timeout_millis,
            ));
            while remote.len() > 0
                invariant
                    start + all == tool_views(tools@) + all_wrapped(
                        listing.plugin@,
                        listing.server@,
                        remote_views(remote@),
                        call_timeout_millis,
                    ),
                decreases remote.len(),
            {
                let ghost before = remote@;
                let ghost done = tool_views(tools@);
                let entry = remote.remove(0);
                let tool = McpTool::new(
                    listing.plugin.as_str(),
                    listing.server.as_str(),
                    entry,
                    call_timeout_millis,
                );
                tools.push(tool);
                assert(tool_views(tools@) =~= done.push(tool@));
                assert(all_wrapped(
                    listing.plugin@,
                    listing.server@,
                    remote_views(before),
                    call_timeout_millis,
                ) =~= seq![tool@] + all_wrapped(
                    listing.plugin@,
                    listing.server@,
                    remote_views(remote@),
                    call_timeout_millis,
                ));
                assert(tool_views(tools@) + all_wrapped(
                    listing.plugin@,
                    listing.server@,
                    remote_views(remote@),
                    call_timeout_millis,
                ) =~= start + all);
            }
            assert(tool_views(tools@) =~= start + all);
        },
    }
}

/// Collects what each server lists. One that will not start, will not initialize, or will not
/// answer in time contributes nothing; it cannot cost another server its tools.
pub fn discover(listings: Vec<Listing>, call_timeout_millis: u64) -> (r: Vec<McpTool>)
    ensures
        tool_views(r@) == discovered(listings@, call_timeout_millis),
{
    let ghost all = discovered(listings@, call_timeout_millis);
    let mut tools: Vec<McpTool> = Vec::new();
    let mut listings = listings;
    assert(tool_views(tools@) + all =~= all);
    while listings.len() > 0
        invariant
            all == tool_views(tools@) + discovered(listings@, call_timeout_millis),
        decreases listings.len(),
    {
        let ghost before = listings@;
        let listing = listings.remove(0);
        assert(listings@ =~= before.drop_first());
        wrap_listing(listing, call_timeout_millis, &mut tools);
        assert(all =~= tool_views(tools@) + discovered(listings@, call_timeout_millis));
    }
    assert(tool_views(tools@) =~= all);
    tools
}

/// The budgets for talking to a server.
#[derive(Clone, Copy, Debug, PartialEq, Eq, Structural)]
pub struct PluginTimeouts {
    pub mcp_startup_millis: u64,
    pub mcp_call_millis: u64,
}

/// Budgets for talking to a server.
#[derive(Clone, Copy, Debug, PartialEq, Eq, Structural)]
pub struct McpOptions {
    /// How long a server has to answer `initialize` and `tools/list`. A server that overruns this
    /// contributes no tools rather than stalling the session.
    pub startup_timeout_millis: u64,
    /// The ceiling for a single `tools/call`, also advertised to the engine as the tool's timeout
    /// so there is one budget rather than two.
    pub call_timeout_millis: u64,
}

impl McpOptions {
    /// The configured budgets, narrowed to the two that are spent here.
    pub fn from_timeouts(timeouts: PluginTimeouts) -> (r: McpOptions)
        ensures
            r == (McpOptions {
                startup_timeout_millis: timeouts.mcp_startup_millis,
                call_timeout_millis: timeouts.mcp_call_millis,
            }),
    {
        McpOptions {
            startup_timeout_millis: timeouts.mcp_startup_millis,
            call_timeout_millis: timeouts.mcp_call_millis,
        }
    }
}

// Laws.

/// A server that is unavailable costs no other its tools: leaving it out changes nothing.
pub proof fn a_failed_server_costs_nobody_else(
    listings: Seq<Listing>,
    i: int,
    call_timeout_millis: u64,
)
    requires
        0 <= i < listings.len(),
        listings[i].tools is Err,
    ensures
        discovered(listings, call_timeout_millis) == discovered(
            listings.remove(i),
            call_timeout_millis,
        ),
    decreases listings.len(),
{
    if i == 0 {
        assert(listings.remove(0) =~= listings.drop_first());
        assert(discovered(listings, call_timeout_millis) =~= discovered(
            listings.drop_first(),
            call_timeout_millis,
        ));
    } else {
        a_failed_server_costs_nobody_else(listings.drop_first(), i - 1, call_timeout_millis);
        assert(listings.drop_first().remove(i - 1) =~= listings.remove(i).drop_first());
        assert(listings.remove(i)[0] == listings[0]);
    }
}

/// What stands before a separator that the front does not hold, and what stands behind it.
proof fn lemma_split_at_colon(a: Seq<char>, rest: Seq<char>, b: Seq<char>, more: Seq<char>)
    requires
        !a.contains(':'),
        !b.contains(':'),
        a + ":"@ + rest == b + ":"@ + more,
    ensures
        a == b,
        rest == more,
{
    reveal_strlit(":");
    let s = a + ":"@ + rest;
    let t = b + ":"@ + more;
    if a.len() < b.len() {
        assert(s[a.len() as int] == ':');
        assert(t[a.len() as int] == b[a.len() as int]);
        assert(b.contains(':'));
    }
    if b.len() < a.len() {
        assert(t[b.len() as int] == ':');
        assert(s[b.len() as int] == a[b.len() as int]);
        assert(a.contains(':'));
    }
    assert(a =~= s.take(a.len() as int));
    assert(b =~= t.take(b.len() as int));
    assert(rest =~= s.skip(a.len() as int + 1));
    assert(more =~= t.skip(b.len() as int + 1));
}

/// Two tools share an id only where they are the same tool of the same server of the same plugin,
/// as long as no plugin and no server has a colon in its name.
pub proof fn ids_do_not_collide(
    plugin: Seq<char>,
    server: Seq<char>,
    tool: Seq<char>,
    other_plugin: Seq<char>,
    other_server: Seq<char>,
    other_tool: Seq<char>,
)
    requires
        !plugin.contains(':'),
        !server.contains(':'),
        !other_plugin.contains(':'),
        !other_server.contains(':'),
        namespaced(plugin, server, tool) == namespaced(other_plugin, other_server, other_tool),
    ensures
        plugin == other_plugin,
        server == other_server,
        tool == other_tool,
{
    let rest = server + ":"@ + tool;
    let more = other_server + ":"@ + other_tool;
    assert(namespaced(plugin, server, tool) =~= plugin + ":"@ + rest);
    assert(namespaced(other_plugin, other_server, other_tool) =~= other_plugin + ":"@ + more);
    lemma_split_at_colon(plugin, rest, other_plugin, more);
    lemma_split_at_colon(server, tool, other_server, other_tool);
}

/// A call never gets more time than the tool advertises, nor more than the engine enforces.
pub proof fn a_call_has_one_budget(enforced: Option<u64>, ceiling: u64)
    ensures
        budget_of(enforced, ceiling) <= ceiling,
        enforced is Some ==> budget_of(enforced, ceiling) <= enforced->0,
{
}

/// Every tool that a server lists is offered, in order, under the plugin and the server it is of; the
/// server is called by the tool's own name, and what it says of the tool is passed on.
pub proof fn every_listed_tool_is_offered(listings: Seq<Listing>, millis: u64)
    ensures
        discovered(listings, millis) == listings.map_values(
            |l: Listing|
                match l.tools {
                    Ok(tools) => remote_views(tools@).map_values(
                        |t: RemoteToolView| wrapped(l.plugin@, l.server@, t, millis),
                    ),
                    Err(_) => Seq::empty(),
                },
        ).flatten(),
    decreases listings.len(),
{
    let f = |l: Listing|
        match l.tools {
            Ok(tools) => remote_views(tools@).map_values(
                |t: RemoteToolView| wrapped(l.plugin@, l.server@, t, millis),
            ),
            Err(_) => Seq::<McpToolView>::empty(),
        };
    if listings.len() == 0 {
        assert(listings.map_values(f) =~= Seq::empty());
    } else {
        every_listed_tool_is_offered(listings.drop_first(), millis);
        let all = listings.map_values(f);
        assert(all.drop_first() =~= listings.drop_first().map_values(f));
        assert(all.first() == f(listings[0]));
        assert(listed(listings[0], millis) =~= f(listings[0]));
    }
}

/// A tool is called by the name its server has for it, and described as its server describes it.
pub proof fn a_tool_is_what_its_server_says(
    plugin: Seq<char>,
    server: Seq<char>,
    remote: RemoteToolView,
    millis: u64,
)
    ensures
        ({
            let tool = wrapped(plugin, server, remote, millis);
            &&& tool.remote_name == remote.name
            &&& tool.id == plugin + seq![':'] + server + seq![':'] + remote.name
            &&& remote.description.len() > 0 ==> tool.description == remote.description
            &&& tool.description.len() > 0
            &&& tool.input_schema == remote.input_schema
            &&& tool.call_timeout_millis == millis
        }),
{
    reveal_strlit(":");
    reveal_strlit("An MCP tool. The server provided no description.");
    assert(":"@ =~= seq![':']);
}

/// What a tool returned is passed on block by block and in order, text as it is; a block that is no
/// text is named and not passed over, and a result is never empty.
pub proof fn every_block_of_a_result_is_passed_on(content: Seq<JsonView>)
    ensures
        content_texts(content).len() == (if content.len() > 0 {
            content.len() as int
        } else {
            1
        }),
        forall|i: int|
            0 <= i < content.len() ==> {
                let shown = #[trigger] content_texts(content)[i];
                &&& text_member(content[i], "text"@) matches Some(t) ==> shown == t
                &&& text_member(content[i], "text"@) is None && text_member(
                    content[i],
                    "type"@,
                ) is Some ==> shown == "["@ + text_member(content[i], "type"@)->0
                    + " content omitted]"@
            },
        text_blocks(content_texts(content)).len() == content_texts(content).len(),
        forall|i: int|
            0 <= i < content_texts(content).len() ==> #[trigger] text_blocks(
                content_texts(content),
            )[i] == (BlockView::Text { text: content_texts(content)[i] }),
{
}

} // verus!
