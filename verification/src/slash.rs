//! Commands a person types instead of sending to the model.
//!
//! Two kinds share one namespace: the ones the surface carries out itself (`/help`,
//! `/effort`), and the ones a plugin contributes as a prompt file. They stay distinct in the
//! type, because a plugin must never be able to redefine what `/quit` does.

use vstd::prelude::*;
use crate::protocol::{effort_named, effort_word, ApprovalPolicy, ReasoningEffort};
use crate::text;
use crate::text::{at_most, has_prefix, trimmed, trimmed_start, white_space};

verus! {

/// What running a command does.
#[derive(Debug, PartialEq, Eq)]
pub enum SlashAction {
    /// The surface carries it out. Never contributed by a plugin.
    Builtin(Builtin),
    /// A plugin-contributed prompt file; its body is sent as the prompt, with whatever the
    /// person typed after the name appended.
    Prompt(String),
}

/// What a [`SlashAction`] says.
pub enum SlashActionView {
    Builtin(Builtin),
    Prompt(Seq<char>),
}

impl View for SlashAction {
    type V = SlashActionView;

    open spec fn view(&self) -> SlashActionView {
        match self {
            SlashAction::Builtin(builtin) => SlashActionView::Builtin(*builtin),
            SlashAction::Prompt(path) => SlashActionView::Prompt(path@),
        }
    }
}

/// The commands the surface implements itself.
#[derive(Clone, Copy, Debug, PartialEq, Eq, Structural)]
pub enum Builtin {
    Help,
    Clear,
    /// Retires the conversation the agent is holding and starts a fresh one: history and
    /// usage go to zero, not just what is drawn on screen.
    New,
    Quit,
    /// Cycles the reasoning effort, or sets the level named as an argument.
    Effort,
    /// Opens the model picker, or switches straight to the model named as an argument.
    Model,
    /// Opens the provider picker, or points the next session straight at the route named as
    /// an argument.
    Provider,
    /// Puts the last reply on the system clipboard.
    Copy,
    /// Lists the MCP servers and their state, and signs in to a remote one.
    Mcp,
    /// Asks the session to plan first, optionally with the prompt to plan about in the same
    /// breath.
    Plan,
    /// Reopens the last plan this session saw, as a record of what was decided rather than a
    /// question to answer again.
    ViewPlan,
}

/// One entry in the command list.
#[derive(Debug, PartialEq, Eq)]
pub struct SlashCommand {
    /// What a person types after the `/`.
    pub name: String,
    pub description: String,
    pub action: SlashAction,
}

/// What a [`SlashCommand`] says.
pub struct SlashCommandView {
    pub name: Seq<char>,
    pub description: Seq<char>,
    pub action: SlashActionView,
}

impl View for SlashCommand {
    type V = SlashCommandView;

    open spec fn view(&self) -> SlashCommandView {
        SlashCommandView {
            name: self.name@,
            description: self.description@,
            action: self.action@,
        }
    }
}

/// What some commands say.
pub open spec fn command_views(commands: Seq<SlashCommand>) -> Seq<SlashCommandView> {
    commands.map_values(|c: SlashCommand| c@)
}

/// A plugin's contribution, before it is given a name in the shared namespace.
#[derive(Debug, PartialEq, Eq)]
pub struct PluginCommand {
    pub plugin: String,
    pub name: String,
    pub description: String,
    pub path: String,
}

/// What a [`PluginCommand`] says.
pub struct PluginCommandView {
    pub plugin: Seq<char>,
    pub name: Seq<char>,
    pub description: Seq<char>,
    pub path: Seq<char>,
}

impl View for PluginCommand {
    type V = PluginCommandView;

    open spec fn view(&self) -> PluginCommandView {
        PluginCommandView {
            plugin: self.plugin@,
            name: self.name@,
            description: self.description@,
            path: self.path@,
        }
    }
}

/// What some contributions say.
pub open spec fn plugin_views(plugins: Seq<PluginCommand>) -> Seq<PluginCommandView> {
    plugins.map_values(|p: PluginCommand| p@)
}

impl SlashCommand {
    /// A prompt file a plugin ships. `plugin` is kept so the name can be qualified if another
    /// plugin contributes the same one.
    pub fn prompt(plugin: &str, name: &str, description: &str, path: &str) -> (r: PluginCommand)
        ensures
            r@ == (PluginCommandView {
                plugin: plugin@,
                name: name@,
                description: description@,
                path: path@,
            }),
    {
        PluginCommand {
            plugin: text::copy(plugin),
            name: text::copy(name),
            description: text::copy(description),
            path: text::copy(path),
        }
    }
}

/// A command of the surface's own.
pub open spec fn own(action: Builtin, name: Seq<char>, description: Seq<char>) -> SlashCommandView {
    SlashCommandView { name, description, action: SlashActionView::Builtin(action) }
}

/// The commands of the surface's own.
pub open spec fn builtin_views() -> Seq<SlashCommandView> {
    seq![
        own(Builtin::Help, "help"@, "list the commands"@),
        own(Builtin::Clear, "clear"@, "clear the transcript on screen"@),
        own(
            Builtin::New,
            "new"@,
            "start a new session — history, usage, and the transcript all reset"@,
        ),
        own(
            Builtin::Effort,
            "effort"@,
            "cycle the reasoning effort, or name one: low, medium, high, xhigh, max, ultra, default"@,
        ),
        own(
            Builtin::Model,
            "model"@,
            "pick a model from this provider, or name one to switch to it"@,
        ),
        own(
            Builtin::Provider,
            "provider"@,
            "pick which registered provider serves the next session, or name one"@,
        ),
        own(Builtin::Copy, "copy"@, "copy the last reply to the clipboard"@),
        own(
            Builtin::Mcp,
            "mcp"@,
            "manage the MCP servers, or `login <name>` to authorize a remote one"@,
        ),
        own(
            Builtin::Plan,
            "plan"@,
            "plan before building — `/plan <what to do>` starts the turn too"@,
        ),
        own(Builtin::ViewPlan, "view-plan"@, "reopen the last plan, as a record"@),
        own(Builtin::ViewPlan, "show-plan"@, "alias for /view-plan"@),
        own(Builtin::ViewPlan, "plan-view"@, "alias for /view-plan"@),
        own(Builtin::Quit, "quit"@, "leave keke"@),
    ]
}

/// A command of the surface's own.
fn own_command(action: Builtin, name: &str, description: &str) -> (r: SlashCommand)
    ensures
        r@ == own(action, name@, description@),
{
    SlashCommand {
        name: text::copy(name),
        description: text::copy(description),
        action: SlashAction::Builtin(action),
    }
}

/// The commands of the surface's own.
pub fn builtins() -> (r: Vec<SlashCommand>)
    ensures
        command_views(r@) == builtin_views(),
{
    let r = vec![
        own_command(Builtin::Help, "help", "list the commands"),
        own_command(Builtin::Clear, "clear", "clear the transcript on screen"),
        own_command(
            Builtin::New,
            "new",
            "start a new session — history, usage, and the transcript all reset",
        ),
        own_command(
            Builtin::Effort,
            "effort",
            "cycle the reasoning effort, or name one: low, medium, high, xhigh, max, ultra, default",
        ),
        own_command(
            Builtin::Model,
            "model",
            "pick a model from this provider, or name one to switch to it",
        ),
        own_command(
            Builtin::Provider,
            "provider",
            "pick which registered provider serves the next session, or name one",
        ),
        own_command(Builtin::Copy, "copy", "copy the last reply to the clipboard"),
        own_command(
            Builtin::Mcp,
            "mcp",
            "manage the MCP servers, or `login <name>` to authorize a remote one",
        ),
        own_command(
            Builtin::Plan,
            "plan",
            "plan before building — `/plan <what to do>` starts the turn too",
        ),
        own_command(Builtin::ViewPlan, "view-plan", "reopen the last plan, as a record"),
        own_command(Builtin::ViewPlan, "show-plan", "alias for /view-plan"),
        own_command(Builtin::ViewPlan, "plan-view", "alias for /view-plan"),
        own_command(Builtin::Quit, "quit", "leave keke"),
    ];
    assert(command_views(r@) =~= builtin_views());
    r
}

/// How many contributions claim a name.
pub open spec fn claims(plugins: Seq<PluginCommandView>, name: Seq<char>) -> nat
    decreases plugins.len(),
{
    if plugins.len() == 0 {
        0
    } else {
        claims(plugins.drop_last(), name) + (if plugins.last().name == name {
            1nat
        } else {
            0
        })
    }
}

/// Whether a name is one of the surface's own.
pub open spec fn is_builtin_name(name: Seq<char>) -> bool {
    exists|i: int| 0 <= i < builtin_views().len() && #[trigger] builtin_views()[i].name == name
}

/// The name that a contribution is given: its own where it is the sole claimant, and one
/// qualified by its plugin where it is not or the surface has that name.
pub open spec fn given_name(plugins: Seq<PluginCommandView>, plugin: PluginCommandView) -> Seq<
    char,
> {
    if claims(plugins, plugin.name) > 1 || is_builtin_name(plugin.name) {
        plugin.plugin + ":"@ + plugin.name
    } else {
        plugin.name
    }
}

/// The entry of a contribution.
pub open spec fn plugin_entry(plugins: Seq<PluginCommandView>, plugin: PluginCommandView) -> SlashCommandView {
    SlashCommandView {
        name: given_name(plugins, plugin),
        description: plugin.description,
        action: SlashActionView::Prompt(plugin.path),
    }
}

/// An entry put in its place among entries in order, behind those of the same name.
pub open spec fn placed(entries: Seq<SlashCommandView>, entry: SlashCommandView) -> Seq<
    SlashCommandView,
>
    decreases entries.len(),
{
    if entries.len() == 0 || at_most(entries.last().name, entry.name) {
        entries.push(entry)
    } else {
        placed(entries.drop_last(), entry).push(entries.last())
    }
}

/// Entries in the order of their names, those of one name as they came.
pub open spec fn sorted(entries: Seq<SlashCommandView>) -> Seq<SlashCommandView>
    decreases entries.len(),
{
    if entries.len() == 0 {
        Seq::empty()
    } else {
        placed(sorted(entries.drop_last()), entries.last())
    }
}

/// The entries of some contributions, as they came.
pub open spec fn plugin_entries(plugins: Seq<PluginCommandView>) -> Seq<SlashCommandView> {
    plugins.map_values(|p: PluginCommandView| plugin_entry(plugins, p))
}

/// Everything a person can type: the surface's own commands and the contributions.
pub open spec fn all_entries(plugins: Seq<PluginCommandView>) -> Seq<SlashCommandView> {
    sorted(builtin_views() + plugin_entries(plugins))
}

/// The first entry with this name.
pub open spec fn found(entries: Seq<SlashCommandView>, name: Seq<char>) -> Option<int>
    decreases entries.len(),
{
    if entries.len() == 0 {
        None
    } else {
        match found(entries.drop_last(), name) {
            Some(i) => Some(i),
            None => if entries.last().name == name {
                Some(entries.len() - 1)
            } else {
                None
            },
        }
    }
}

/// The entries whose names begin with a prefix, in order.
pub open spec fn beginning(entries: Seq<SlashCommandView>, prefix: Seq<char>) -> Seq<
    SlashCommandView,
>
    decreases entries.len(),
{
    if entries.len() == 0 {
        Seq::empty()
    } else if has_prefix(entries.last().name, prefix) {
        beginning(entries.drop_last(), prefix).push(entries.last())
    } else {
        beginning(entries.drop_last(), prefix)
    }
}

/// The command list a person completes against.
#[derive(Debug, PartialEq, Eq)]
pub struct SlashCommands {
    entries: Vec<SlashCommand>,
}

impl View for SlashCommands {
    type V = Seq<SlashCommandView>;

    closed spec fn view(&self) -> Seq<SlashCommandView> {
        command_views(self.entries@)
    }
}

/// How many contributions claim a name.
fn count_claims(plugins: &Vec<PluginCommand>, name: &str) -> (r: usize)
    ensures
        r == claims(plugin_views(plugins@), name@),
{
    let ghost all = plugin_views(plugins@);
    let mut n: usize = 0;
    let mut i: usize = 0;
    while i < plugins.len()
        invariant
            i <= plugins.len(),
            n <= i,
            all == plugin_views(plugins@),
            n == claims(all.take(i as int), name@),
        decreases plugins.len() - i,
    {
        assert(all.take(i as int + 1).drop_last() =~= all.take(i as int));
        assert(all[i as int] == plugins@[i as int]@);
        if text::eq(plugins[i].name.as_str(), name) {
            n += 1;
        }
        i += 1;
    }
    assert(all.take(i as int) =~= all);
    n
}

/// Whether a name is one of the surface's own.
fn taken(own: &Vec<SlashCommand>, name: &str) -> (r: bool)
    requires
        command_views(own@) == builtin_views(),
    ensures
        r == is_builtin_name(name@),
{
    let mut i: usize = 0;
    while i < own.len()
        invariant
            i <= own.len(),
            command_views(own@) == builtin_views(),
            forall|k: int| 0 <= k < i ==> #[trigger] builtin_views()[k].name != name@,
        decreases own.len() - i,
    {
        assert(command_views(own@)[i as int] == own@[i as int]@);
        if text::eq(own[i].name.as_str(), name) {
            assert(builtin_views()[i as int].name == name@);
            return true;
        }
        i += 1;
    }
    assert(own.len() == command_views(own@).len());
    false
}

/// Puts an entry in its place among entries in order.
fn place(entries: &mut Vec<SlashCommand>, entry: SlashCommand)
    ensures
        command_views(final(entries)@) == placed(command_views(old(entries)@), entry@),
{
    let ghost all = command_views(entries@);
    let ghost view = entry@;
    let mut at: usize = entries.len();
    proof {
        assert(all.take(at as int) =~= all);
        assert(placed(all, view) =~= placed(all.take(at as int), view) + all.skip(at as int));
    }
    while at > 0 && !text::is_at_most(entries[at - 1].name.as_str(), entry.name.as_str())
        invariant
            at <= entries.len(),
            view == entry@,
            all == command_views(entries@),
            placed(all, view) == placed(all.take(at as int), view) + all.skip(at as int),
        decreases at,
    {
        proof {
            assert(all.take(at as int).last() == entries@[at - 1]@);
            assert(all.take(at as int).drop_last() =~= all.take(at as int - 1));
            assert(placed(all.take(at as int), view) + all.skip(at as int) =~= placed(
                all.take(at as int - 1),
                view,
            ) + all.skip(at as int - 1));
        }
        at -= 1;
    }
    assert(at > 0 ==> all.take(at as int).last() == entries@[at - 1]@);
    assert(placed(all.take(at as int), view) == all.take(at as int).push(view));
    entries.insert(at, entry);
    assert(command_views(entries@) =~= all.take(at as int).push(view) + all.skip(at as int));
}

impl Default for SlashCommands {
    /// A list without any command.
    fn default() -> (r: SlashCommands)
        ensures
            r@ == Seq::<SlashCommandView>::empty(),
    {
        let r = SlashCommands { entries: Vec::new() };
        assert(r@ =~= Seq::empty());
        r
    }
}

impl SlashCommands {
    /// Builtins plus whatever the plugins contribute.
    ///
    /// A bare name is given to a plugin command only when it is the sole claimant; two
    /// plugins contributing `review` both become `plugin:review`, and neither gets `/review`.
    /// Silently picking one would make which plugin ran depend on discovery order.
    pub fn new(plugins: Vec<PluginCommand>) -> (r: SlashCommands)
        ensures
            r@ == all_entries(plugin_views(plugins@)),
    {
        let own = builtins();
        let ghost contributed = plugin_views(plugins@);
        let ghost more = plugin_entries(contributed);
        let ghost raw = builtin_views() + more;
        let mut unsorted: Vec<SlashCommand> = builtins();
        let mut i: usize = 0;
        assert(command_views(unsorted@) =~= raw.take(unsorted@.len() as int));
        while i < plugins.len()
            invariant
                i <= plugins.len(),
                command_views(own@) == builtin_views(),
                contributed == plugin_views(plugins@),
                more == plugin_entries(contributed),
                raw == builtin_views() + more,
                unsorted.len() == builtin_views().len() + i,
                command_views(unsorted@) == raw.take(unsorted@.len() as int),
            decreases plugins.len() - i,
        {
            let ghost before = command_views(unsorted@);
            let command = &plugins[i];
            assert(contributed[i as int] == command@);
            let contested = count_claims(&plugins, command.name.as_str()) > 1 || taken(
                &own,
                command.name.as_str(),
            );
            let name = if contested {
                text::concat3(command.plugin.as_str(), ":", command.name.as_str())
            } else {
                command.name.clone()
            };
            let entry = SlashCommand {
                name,
                description: command.description.clone(),
                action: SlashAction::Prompt(command.path.clone()),
            };
            let ghost view = entry@;
            unsorted.push(entry);
            assert(command_views(unsorted@) =~= before.push(view));
            assert(raw.take(unsorted@.len() as int) =~= before.push(more[i as int]));
            i += 1;
        }
        assert(raw.take(unsorted@.len() as int) =~= raw);
        let mut entries: Vec<SlashCommand> = Vec::new();
        assert(command_views(entries@) =~= sorted(raw.take(0)));
        for entry in it: unsorted
            invariant
                command_views(it.seq()) == raw,
                command_views(entries@) == sorted(raw.take(it.index() as int)),
        {
            proof {
                let k = it.index() as int;
                assert(raw.take(k + 1).drop_last() =~= raw.take(k));
                assert(raw[k] == it.seq()[k]@);
            }
            place(&mut entries, entry);
        }
        assert(raw.take(raw.len() as int) =~= raw);
        SlashCommands { entries }
    }

    /// Every entry, in the order of their names.
    pub fn entries(&self) -> (r: &Vec<SlashCommand>)
        ensures
            command_views(r@) == self@,
    {
        &self.entries
    }

    /// The entry with this name.
    pub fn find(&self, name: &str) -> (r: Option<&SlashCommand>)
        ensures
            match found(self@, name@) {
                Some(i) => r is Some && r->0@ == self@[i],
                None => r is None,
            },
    {
        let ghost all = self@;
        let mut i: usize = 0;
        while i < self.entries.len()
            invariant
                i <= self.entries.len(),
                all == command_views(self.entries@),
                all == self@,
                found(all.take(i as int), name@) is None,
            decreases self.entries.len() - i,
        {
            assert(all[i as int] == self.entries@[i as int]@);
            assert(all.take(i as int + 1).drop_last() =~= all.take(i as int));
            if text::eq(self.entries[i].name.as_str(), name) {
                proof {
                    lemma_found_stays(all, name@, i as int + 1);
                }
                return Some(&self.entries[i]);
            }
            i += 1;
        }
        assert(all.take(i as int) =~= all);
        None
    }

    /// Everything a person could mean by what they have typed so far.
    pub fn matching(&self, prefix: &str) -> (r: Vec<&SlashCommand>)
        ensures
            r@.map_values(|c: &SlashCommand| c@) == beginning(self@, prefix@),
    {
        let ghost all = self@;
        let mut r: Vec<&SlashCommand> = Vec::new();
        let mut i: usize = 0;
        assert(r@.map_values(|c: &SlashCommand| c@) =~= beginning(all.take(0), prefix@));
        while i < self.entries.len()
            invariant
                i <= self.entries.len(),
                all == command_views(self.entries@),
                r@.map_values(|c: &SlashCommand| c@) == beginning(all.take(i as int), prefix@),
            decreases self.entries.len() - i,
        {
            let ghost before = r@.map_values(|c: &SlashCommand| c@);
            assert(all[i as int] == self.entries@[i as int]@);
            assert(all.take(i as int + 1).drop_last() =~= all.take(i as int));
            if text::starts_with(self.entries[i].name.as_str(), prefix) {
                r.push(&self.entries[i]);
                assert(r@.map_values(|c: &SlashCommand| c@) =~= before.push(all[i as int]));
            }
            i += 1;
        }
        assert(all.take(i as int) =~= all);
        r
    }
}

/// What is found among the first entries is found among all.
proof fn lemma_found_stays(entries: Seq<SlashCommandView>, name: Seq<char>, n: int)
    requires
        0 <= n <= entries.len(),
        found(entries.take(n), name) is Some,
    ensures
        found(entries, name) == found(entries.take(n), name),
    decreases entries.len(),
{
    if n < entries.len() {
        assert(entries.drop_last().take(n) =~= entries.take(n));
        lemma_found_stays(entries.drop_last(), name, n);
    } else {
        assert(entries.take(n) =~= entries);
    }
}

// Reading what was typed.

/// Whether a character is alphanumeric: alphabetic or numeric, by its Unicode properties.
pub uninterp spec fn alphanumeric(c: char) -> bool;

/// `char::is_alphanumeric`. Which characters are is Unicode's table; of ASCII it is the
/// letters and the digits.
pub assume_specification[ char::is_alphanumeric ](c: char) -> (r: bool)
    ensures
        r == alphanumeric(c),
        c <= '\u{7f}' ==> r == ('0' <= c <= '9' || 'A' <= c <= 'Z' || 'a' <= c <= 'z'),
;

/// Whether a character may stand in a command's name.
pub open spec fn name_char(c: char) -> bool {
    alphanumeric(c) || c == '-' || c == '_' || c == ':'
}

/// Whether a character may stand in a command's name.
pub fn is_name_char(ch: char) -> (r: bool)
    ensures
        r == name_char(ch),
{
    ch.is_alphanumeric() || ch == '-' || ch == '_' || ch == ':'
}

/// Where the first white space stands, or the end, searched from `k` on.
pub open spec fn name_end(s: Seq<char>, k: int) -> int
    decreases s.len() - k,
{
    if 0 <= k < s.len() && !white_space(s[k]) {
        name_end(s, k + 1)
    } else {
        k
    }
}

/// Whether a text is a command's name.
pub open spec fn is_name(s: Seq<char>) -> bool {
    s.len() > 0 && forall|i: int| 0 <= i < s.len() ==> name_char(#[trigger] s[i])
}

/// The name and the arguments of a command line.
pub open spec fn parsed(line: Seq<char>) -> Option<(Seq<char>, Seq<char>)> {
    if line.len() == 0 || line[0] != '/' {
        None
    } else {
        let rest = line.skip(1);
        let end = name_end(rest, 0);
        if is_name(rest.take(end)) {
            Some((rest.take(end), trimmed_start(rest.skip(end))))
        } else {
            None
        }
    }
}

/// Splits `/name rest` into the name and whatever follows it.
///
/// Returns `None` for anything that is not a command, so a prompt that happens to begin with a
/// path, such as `/usr/bin/env is missing`, is still a prompt.
pub fn parse(line: &str) -> (r: Option<(String, String)>)
    ensures
        match parsed(line@) {
            Some((name, arguments)) => r is Some && (r->0).0@ == name && (r->0).1@ == arguments,
            None => r is None,
        },
{
    let v = text::to_chars(line);
    if v.len() == 0 || v[0] != '/' {
        return None;
    }
    let ghost rest = v@.skip(1);
    let mut end: usize = 1;
    let mut plain = true;
    while end < v.len() && !text::is_white_space(v[end])
        invariant
            1 <= end <= v.len(),
            rest == v@.skip(1),
            name_end(rest, 0) == name_end(rest, end - 1),
            plain == (forall|i: int| 0 <= i < end - 1 ==> name_char(#[trigger] rest[i])),
        decreases v.len() - end,
    {
        assert(rest[end - 1] == v@[end as int]);
        if !is_name_char(v[end]) {
            plain = false;
        }
        end += 1;
    }
    assert(end < v.len() ==> rest[end - 1] == v@[end as int]);
    let ghost name = rest.take(end - 1);
    assert(forall|i: int| 0 <= i < name.len() ==> #[trigger] name[i] == rest[i]);
    if end == 1 || !plain {
        proof {
            if !plain {
                let i = choose|i: int| 0 <= i < end - 1 && !name_char(#[trigger] rest[i]);
                assert(!name_char(name[i]));
            }
        }
        return None;
    }
    let found = text::from_chars(&v, 1, end);
    assert(found@ =~= name);
    let tail = text::from_chars(&v, end, v.len());
    assert(tail@ =~= rest.skip(end - 1));
    Some((found, text::trim_start(tail.as_str())))
}

/// How an approval policy is written.
pub open spec fn policy_word(policy: ApprovalPolicy) -> Seq<char> {
    match policy {
        ApprovalPolicy::OnRequest => "on-request"@,
        ApprovalPolicy::OnFailure => "on-failure"@,
        ApprovalPolicy::Never => "never"@,
    }
}

/// How an approval policy is written wherever a person sees or types one.
pub fn policy_name(policy: ApprovalPolicy) -> (r: &'static str)
    ensures
        r@ == policy_word(policy),
{
    match policy {
        ApprovalPolicy::OnRequest => "on-request",
        ApprovalPolicy::OnFailure => "on-failure",
        ApprovalPolicy::Never => "never",
    }
}

/// How an effort level, or the lack of one, is written.
pub open spec fn level_word(effort: Option<ReasoningEffort>) -> Seq<char> {
    match effort {
        None => "default"@,
        Some(level) => effort_word(level),
    }
}

/// How an effort level is written wherever a person sees or types one.
///
/// Unset has a name of its own: the model's own default is not the bottom rung, and a person
/// must be able to say either.
pub fn effort_name(effort: Option<ReasoningEffort>) -> (r: &'static str)
    ensures
        r@ == level_word(effort),
{
    match effort {
        None => "default",
        Some(level) => level.as_str(),
    }
}

/// Reads the argument to `/effort`. `Ok(None)` means "no argument, cycle".
///
/// A level nobody recognizes is an error rather than a fallback: a typo that quietly bought
/// less thinking is invisible until the answers are worse.
pub fn effort(argument: &str) -> (r: Result<Option<Option<ReasoningEffort>>, String>)
    ensures
        ({
            let word = trimmed(argument@);
            if word.len() == 0 {
                r == Ok::<Option<Option<ReasoningEffort>>, String>(None)
            } else if word == "default"@ || word == "unset"@ {
                r == Ok::<Option<Option<ReasoningEffort>>, String>(Some(None))
            } else {
                match effort_named(word) {
                    Some(level) => r == Ok::<Option<Option<ReasoningEffort>>, String>(
                        Some(Some(level)),
                    ),
                    None => r is Err && r->Err_0@ == "unknown reasoning effort `"@ + word + "`"@,
                }
            }
        }),
{
    let word = text::trim(argument);
    if word.as_str().unicode_len() == 0 {
        return Ok(None);
    }
    if text::eq(word.as_str(), "default") || text::eq(word.as_str(), "unset") {
        return Ok(Some(None));
    }
    match ReasoningEffort::parse(word.as_str()) {
        Ok(level) => Ok(Some(Some(level))),
        Err(message) => Err(message),
    }
}

/// Every rung there is, weakest first.
pub open spec fn all_rungs() -> Seq<ReasoningEffort> {
    seq![
        ReasoningEffort::Low,
        ReasoningEffort::Medium,
        ReasoningEffort::High,
        ReasoningEffort::XHigh,
        ReasoningEffort::Max,
        ReasoningEffort::Ultra,
    ]
}

/// Every rung there is, weakest first: the ladder a person cycles through when the model has
/// not said which of them it takes.
pub fn ladder() -> (r: Vec<ReasoningEffort>)
    ensures
        r@ == all_rungs(),
{
    let r = vec![
        ReasoningEffort::Low,
        ReasoningEffort::Medium,
        ReasoningEffort::High,
        ReasoningEffort::XHigh,
        ReasoningEffort::Max,
        ReasoningEffort::Ultra,
    ];
    assert(r@ =~= all_rungs());
    r
}

/// The rungs that a person cycles through.
pub open spec fn rungs_of(offered: Seq<ReasoningEffort>) -> Seq<ReasoningEffort> {
    if offered.len() == 0 {
        all_rungs()
    } else {
        offered
    }
}

/// The first place of a level on a ladder, searched from `k` on.
pub open spec fn rung_at(rungs: Seq<ReasoningEffort>, level: ReasoningEffort, k: int) -> Option<int>
    decreases rungs.len() - k,
{
    if k < 0 || k >= rungs.len() {
        None
    } else if rungs[k] == level {
        Some(k)
    } else {
        rung_at(rungs, level, k + 1)
    }
}

/// The next level on a ladder, past the top of it none.
pub open spec fn next_on(effort: Option<ReasoningEffort>, rungs: Seq<ReasoningEffort>) -> Option<
    ReasoningEffort,
> {
    match effort {
        None => if rungs.len() > 0 {
            Some(rungs[0])
        } else {
            None
        },
        Some(current) => match rung_at(rungs, current, 0) {
            Some(k) => if k + 1 < rungs.len() {
                Some(rungs[k + 1])
            } else {
                None
            },
            None => None,
        },
    }
}

/// The next level after this one, wrapping past the top back to the default.
///
/// Unset enters the ladder at its bottom rung, so tapping through visits every level and
/// returns to leaving the choice to the model. `offered` is what the current model actually
/// takes; where it is empty nobody said, and then every rung is on the table.
pub fn next_effort(effort: Option<ReasoningEffort>, offered: &Vec<ReasoningEffort>) -> (r: Option<
    ReasoningEffort,
>)
    ensures
        r == next_on(effort, rungs_of(offered@)),
{
    let full = ladder();
    let rungs = if offered.len() == 0 {
        &full
    } else {
        offered
    };
    match effort {
        None => Some(rungs[0]),
        Some(current) => {
            let mut k: usize = 0;
            while k < rungs.len()
                invariant
                    k <= rungs.len(),
                    rungs@ == rungs_of(offered@),
                    effort == Some(current),
                    rung_at(rungs@, current, 0) == rung_at(rungs@, current, k as int),
                decreases rungs.len() - k,
            {
                if rungs[k] == current {
                    if k + 1 < rungs.len() {
                        return Some(rungs[k + 1]);
                    }
                    return None;
                }
                k += 1;
            }
            None
        },
    }
}

// Laws.

/// Placing an entry keeps every other and adds just it.
proof fn lemma_placed(entries: Seq<SlashCommandView>, entry: SlashCommandView)
    ensures
        placed(entries, entry).len() == entries.len() + 1,
        forall|e: SlashCommandView|
            #![trigger placed(entries, entry).contains(e)]
            #![trigger entries.contains(e)]
            placed(entries, entry).contains(e) <==> entries.contains(e) || e == entry,
    decreases entries.len(),
{
    if entries.len() == 0 || at_most(entries.last().name, entry.name) {
        let all = entries.push(entry);
        assert forall|e: SlashCommandView| all.contains(e) <==> entries.contains(e) || e == entry by {
            if entries.contains(e) {
                let k = choose|k: int| 0 <= k < entries.len() && entries[k] == e;
                assert(all[k] == e);
            }
            if e == entry {
                assert(all[entries.len() as int] == e);
            }
        }
    } else {
        let init = entries.drop_last();
        lemma_placed(init, entry);
        let before = placed(init, entry);
        let all = before.push(entries.last());
        assert forall|e: SlashCommandView| all.contains(e) <==> entries.contains(e) || e == entry by {
            if before.contains(e) {
                let k = choose|k: int| 0 <= k < before.len() && before[k] == e;
                assert(all[k] == e);
            }
            if e == entries.last() {
                assert(all[before.len() as int] == e);
                assert(entries[entries.len() - 1] == e);
            }
            if init.contains(e) {
                let k = choose|k: int| 0 <= k < init.len() && init[k] == e;
                assert(entries[k] == e);
            }
            if entries.contains(e) && e != entries.last() {
                let k = choose|k: int| 0 <= k < entries.len() && entries[k] == e;
                assert(init[k] == e);
            }
        }
    }
}

/// Sorting keeps every entry.
pub proof fn sorting_keeps_every_entry(entries: Seq<SlashCommandView>)
    ensures
        sorted(entries).len() == entries.len(),
        forall|e: SlashCommandView|
            #![trigger sorted(entries).contains(e)]
            #![trigger entries.contains(e)]
            sorted(entries).contains(e) <==> entries.contains(e),
    decreases entries.len(),
{
    if entries.len() > 0 {
        let init = entries.drop_last();
        sorting_keeps_every_entry(init);
        lemma_placed(sorted(init), entries.last());
        assert forall|e: SlashCommandView| sorted(entries).contains(e) <==> entries.contains(e) by {
            if init.contains(e) {
                let k = choose|k: int| 0 <= k < init.len() && init[k] == e;
                assert(entries[k] == e);
            }
            if e == entries.last() {
                assert(entries[entries.len() - 1] == e);
            }
            if entries.contains(e) && e != entries.last() {
                let k = choose|k: int| 0 <= k < entries.len() && entries[k] == e;
                assert(init[k] == e);
            }
        }
    }
}

/// Whether entries stand in the order of their names.
pub open spec fn in_order(entries: Seq<SlashCommandView>) -> bool {
    forall|i: int, j: int|
        0 <= i <= j < entries.len() ==> at_most(
            #[trigger] entries[i].name,
            #[trigger] entries[j].name,
        )
}

proof fn lemma_placed_in_order(entries: Seq<SlashCommandView>, entry: SlashCommandView)
    requires
        in_order(entries),
    ensures
        in_order(placed(entries, entry)),
    decreases entries.len(),
{
    let all = placed(entries, entry);
    text::lemma_at_most_total(entry.name, entry.name);
    if entries.len() == 0 || at_most(entries.last().name, entry.name) {
        assert forall|i: int, j: int| 0 <= i <= j < all.len() implies at_most(
            #[trigger] all[i].name,
            #[trigger] all[j].name,
        ) by {
            if j == entries.len() && i < j {
                assert(at_most(entries[i].name, entries[entries.len() - 1].name));
                text::lemma_at_most_transitive(entries[i].name, entries.last().name, entry.name);
            }
        }
    } else {
        let init = entries.drop_last();
        assert forall|i: int, j: int| 0 <= i <= j < init.len() implies at_most(
            #[trigger] init[i].name,
            #[trigger] init[j].name,
        ) by {
            assert(at_most(entries[i].name, entries[j].name));
        }
        lemma_placed_in_order(init, entry);
        lemma_placed(init, entry);
        let before = placed(init, entry);
        text::lemma_at_most_total(entry.name, entries.last().name);
        text::lemma_at_most_total(entries.last().name, entries.last().name);
        assert forall|i: int, j: int| 0 <= i <= j < all.len() implies at_most(
            #[trigger] all[i].name,
            #[trigger] all[j].name,
        ) by {
            if j < before.len() {
                assert(at_most(before[i].name, before[j].name));
            } else if i < before.len() {
                assert(before.contains(before[i]));
                if before[i] != entry {
                    let k = choose|k: int| 0 <= k < init.len() && init[k] == before[i];
                    assert(at_most(entries[k].name, entries[entries.len() - 1].name));
                }
            }
        }
    }
}

/// The list a person completes against is in the order of its names.
pub proof fn entries_are_in_order(plugins: Seq<PluginCommandView>)
    ensures
        in_order(all_entries(plugins)),
{
    lemma_sorted_in_order(builtin_views() + plugin_entries(plugins));
}

proof fn lemma_sorted_in_order(entries: Seq<SlashCommandView>)
    ensures
        in_order(sorted(entries)),
    decreases entries.len(),
{
    if entries.len() > 0 {
        lemma_sorted_in_order(entries.drop_last());
        lemma_placed_in_order(sorted(entries.drop_last()), entries.last());
    }
}

/// No name of the surface's own holds a colon.
proof fn lemma_builtin_names(i: int)
    requires
        0 <= i < builtin_views().len(),
    ensures
        !builtin_views()[i].name.contains(':'),
{
    reveal_strlit("help");
    reveal_strlit("clear");
    reveal_strlit("new");
    reveal_strlit("effort");
    reveal_strlit("model");
    reveal_strlit("provider");
    reveal_strlit("copy");
    reveal_strlit("mcp");
    reveal_strlit("plan");
    reveal_strlit("view-plan");
    reveal_strlit("show-plan");
    reveal_strlit("plan-view");
    reveal_strlit("quit");
}

/// A qualified name holds a colon.
proof fn lemma_qualified(plugin: Seq<char>, name: Seq<char>)
    ensures
        (plugin + ":"@ + name).contains(':'),
{
    reveal_strlit(":");
    assert((plugin + ":"@ + name)[plugin.len() as int] == ':');
}

/// A plugin cannot change what a command of the surface's own does: whatever plugins
/// contribute, an entry under such a name is the surface's own.
pub proof fn a_plugin_cannot_take_a_builtin_name(plugins: Seq<PluginCommandView>, i: int)
    requires
        0 <= i < all_entries(plugins).len(),
        is_builtin_name(all_entries(plugins)[i].name),
    ensures
        all_entries(plugins)[i].action is Builtin,
        builtin_views().contains(all_entries(plugins)[i]),
{
    let more = plugin_entries(plugins);
    let raw = builtin_views() + more;
    let entry = all_entries(plugins)[i];
    sorting_keeps_every_entry(raw);
    assert(all_entries(plugins).contains(entry));
    let k = choose|k: int| 0 <= k < raw.len() && raw[k] == entry;
    if k >= builtin_views().len() {
        let plugin = plugins[k - builtin_views().len()];
        assert(entry == plugin_entry(plugins, plugin));
        let b = choose|b: int|
            0 <= b < builtin_views().len() && #[trigger] builtin_views()[b].name == entry.name;
        lemma_builtin_names(b);
        if claims(plugins, plugin.name) > 1 || is_builtin_name(plugin.name) {
            lemma_qualified(plugin.plugin, plugin.name);
        }
        assert(false);
    }
    assert(builtin_views()[k] == entry);
}

/// Where two plugins claim one name neither gets it: no entry stands under a contested name
/// that is spelled without a colon and is not the surface's own.
pub proof fn a_contested_name_is_nobodys(
    plugins: Seq<PluginCommandView>,
    name: Seq<char>,
    i: int,
)
    requires
        claims(plugins, name) > 1,
        !name.contains(':'),
        !is_builtin_name(name),
        0 <= i < all_entries(plugins).len(),
    ensures
        all_entries(plugins)[i].name != name,
{
    let more = plugin_entries(plugins);
    let raw = builtin_views() + more;
    let entry = all_entries(plugins)[i];
    sorting_keeps_every_entry(raw);
    assert(all_entries(plugins).contains(entry));
    let k = choose|k: int| 0 <= k < raw.len() && raw[k] == entry;
    if k < builtin_views().len() {
        assert(builtin_views()[k] == entry);
    } else {
        let plugin = plugins[k - builtin_views().len()];
        assert(entry == plugin_entry(plugins, plugin));
        if claims(plugins, plugin.name) > 1 || is_builtin_name(plugin.name) {
            lemma_qualified(plugin.plugin, plugin.name);
        }
    }
}

/// A sole claimant keeps its own name.
pub proof fn a_sole_claimant_keeps_its_name(plugins: Seq<PluginCommandView>, i: int)
    requires
        0 <= i < plugins.len(),
        claims(plugins, plugins[i].name) <= 1,
        !is_builtin_name(plugins[i].name),
    ensures
        all_entries(plugins).contains(
            SlashCommandView {
                name: plugins[i].name,
                description: plugins[i].description,
                action: SlashActionView::Prompt(plugins[i].path),
            },
        ),
{
    let more = plugin_entries(plugins);
    let raw = builtin_views() + more;
    sorting_keeps_every_entry(raw);
    let entry = plugin_entry(plugins, plugins[i]);
    assert(raw[builtin_views().len() + i] == entry);
    assert(raw.contains(entry));
}

/// What a name leads to.
pub open spec fn led_to(entries: Seq<SlashCommandView>, name: Seq<char>) -> Option<
    SlashActionView,
> {
    match found(entries, name) {
        Some(i) => Some(entries[i].action),
        None => None,
    }
}

/// What is found is an entry of that name, and nothing is found only where there is none.
proof fn lemma_found(entries: Seq<SlashCommandView>, name: Seq<char>)
    ensures
        match found(entries, name) {
            Some(i) => 0 <= i < entries.len() && entries[i].name == name,
            None => forall|i: int| 0 <= i < entries.len() ==> #[trigger] entries[i].name != name,
        },
    decreases entries.len(),
{
    if entries.len() > 0 {
        lemma_found(entries.drop_last(), name);
        if found(entries, name) is None {
            assert forall|i: int| 0 <= i < entries.len() implies #[trigger] entries[i].name
                != name by {
                if i < entries.len() - 1 {
                    assert(entries.drop_last()[i].name != name);
                }
            }
        }
    }
}

/// How many contributions claim a name is how many of them, however ordered, have it.
proof fn lemma_claims(plugins: Seq<PluginCommandView>, name: Seq<char>)
    ensures
        claims(plugins, name) == plugins.to_multiset().filter(
            |p: PluginCommandView| p.name == name,
        ).len(),
    decreases plugins.len(),
{
    broadcast use vstd::seq_lib::group_to_multiset_ensures;

    let f = |p: PluginCommandView| p.name == name;
    if plugins.len() == 0 {
        assert(plugins.to_multiset().filter(f) =~= vstd::multiset::Multiset::empty());
    } else {
        let init = plugins.drop_last();
        let last = plugins.last();
        lemma_claims(init, name);
        assert(init.push(last) =~= plugins);
        let m = init.to_multiset();
        if f(last) {
            assert(m.insert(last).filter(f) =~= m.filter(f).insert(last));
        } else {
            assert(m.insert(last).filter(f) =~= m.filter(f));
        }
    }
}

/// Two commands of the surface's own have two names.
proof fn lemma_builtin_names_differ(i: int, j: int)
    requires
        0 <= i < j < builtin_views().len(),
    ensures
        builtin_views()[i].name != builtin_views()[j].name,
{
    reveal_strlit("help");
    reveal_strlit("clear");
    reveal_strlit("new");
    reveal_strlit("effort");
    reveal_strlit("model");
    reveal_strlit("provider");
    reveal_strlit("copy");
    reveal_strlit("mcp");
    reveal_strlit("plan");
    reveal_strlit("view-plan");
    reveal_strlit("show-plan");
    reveal_strlit("plan-view");
    reveal_strlit("quit");
    let a = builtin_views()[i].name;
    let b = builtin_views()[j].name;
    assert(a.len() != b.len() || a[0] != b[0]);
}

/// Whether no two contributions with different files are given one name, as they are where a
/// plugin contributes one name twice.
pub open spec fn names_tell_files_apart(plugins: Seq<PluginCommandView>) -> bool {
    forall|i: int, j: int|
        0 <= i < plugins.len() && 0 <= j < plugins.len() && given_name(plugins, #[trigger]
        plugins[i]) == given_name(plugins, #[trigger] plugins[j]) ==> plugins[i].path
            == plugins[j].path
}

/// Another order holds the same contributions.
proof fn lemma_same_members(
    a: Seq<PluginCommandView>,
    b: Seq<PluginCommandView>,
    p: PluginCommandView,
)
    requires
        a.to_multiset() == b.to_multiset(),
    ensures
        a.contains(p) <==> b.contains(p),
{
    a.to_multiset_ensures();
    b.to_multiset_ensures();
    assert(a.contains(p) <==> a.to_multiset().count(p) > 0);
    assert(b.contains(p) <==> b.to_multiset().count(p) > 0);
}

/// What a name leads to in one order, it leads to in another.
proof fn lemma_led_to(
    a: Seq<PluginCommandView>,
    b: Seq<PluginCommandView>,
    name: Seq<char>,
)
    requires
        a.to_multiset() == b.to_multiset(),
        names_tell_files_apart(a),
        led_to(all_entries(a), name) is Some,
    ensures
        led_to(all_entries(b), name) == led_to(all_entries(a), name),
{
    let n = builtin_views().len() as int;
    let raw_a = builtin_views() + plugin_entries(a);
    let raw_b = builtin_views() + plugin_entries(b);
    lemma_found(all_entries(a), name);
    lemma_found(all_entries(b), name);
    sorting_keeps_every_entry(raw_a);
    sorting_keeps_every_entry(raw_b);
    let e = all_entries(a)[found(all_entries(a), name)->0];
    assert(all_entries(a).contains(e));
    let k = choose|k: int| 0 <= k < raw_a.len() && raw_a[k] == e;
    assert forall|p: PluginCommandView| #[trigger] given_name(a, p) == given_name(b, p) by {
        lemma_claims(a, p.name);
        lemma_claims(b, p.name);
    }
    // The entry, or one like it, is there in the other order too.
    let like = if k < n {
        assert(raw_b[k] == e);
        e
    } else {
        let p = a[k - n];
        assert(a.contains(p));
        lemma_same_members(a, b, p);
        let l = choose|l: int| 0 <= l < b.len() && b[l] == p;
        assert(raw_b[n + l] == plugin_entry(b, p));
        plugin_entry(b, p)
    };
    assert(raw_b.contains(like));
    assert(all_entries(b).contains(like));
    let f = all_entries(b)[found(all_entries(b), name)->0];
    assert(all_entries(b).contains(f));
    let m = choose|m: int| 0 <= m < raw_b.len() && raw_b[m] == f;
    if k < n {
        assert(builtin_views()[k].name == name);
        a_plugin_cannot_take_a_builtin_name(b, found(all_entries(b), name)->0);
        let c = choose|c: int| 0 <= c < n && builtin_views()[c] == f;
        if c < k {
            lemma_builtin_names_differ(c, k);
        } else if k < c {
            lemma_builtin_names_differ(k, c);
        }
    } else {
        let p = a[k - n];
        assert(e == plugin_entry(a, p));
        if m < n {
            assert(builtin_views()[m].name == name);
            a_plugin_cannot_take_a_builtin_name(a, found(all_entries(a), name)->0);
            let c = choose|c: int| 0 <= c < n && builtin_views()[c] == e;
            assert(builtin_views()[c].action is Builtin);
        } else {
            let q = b[m - n];
            assert(f == plugin_entry(b, q));
            assert(b.contains(q));
            lemma_same_members(a, b, q);
            let l = choose|l: int| 0 <= l < a.len() && a[l] == q;
            assert(given_name(a, a[k - n]) == given_name(a, a[l]));
        }
    }
}

/// Which plugin runs does not depend on the order in which plugins are discovered: whatever that
/// order is, every name leads to the same prompt file, or command of the surface's own, or to
/// nothing.
pub proof fn discovery_order_does_not_matter(
    a: Seq<PluginCommandView>,
    b: Seq<PluginCommandView>,
    name: Seq<char>,
)
    requires
        a.to_multiset() == b.to_multiset(),
        names_tell_files_apart(a),
    ensures
        led_to(all_entries(a), name) == led_to(all_entries(b), name),
{
    if led_to(all_entries(a), name) is Some {
        lemma_led_to(a, b, name);
    } else if led_to(all_entries(b), name) is Some {
        assert forall|p: PluginCommandView| #[trigger] given_name(a, p) == given_name(b, p) by {
            lemma_claims(a, p.name);
            lemma_claims(b, p.name);
        }
        assert forall|i: int, j: int|
            0 <= i < b.len() && 0 <= j < b.len() && given_name(b, #[trigger] b[i]) == given_name(
                b,
                #[trigger] b[j],
            ) implies b[i].path == b[j].path by {
            assert(b.contains(b[i]) && b.contains(b[j]));
            lemma_same_members(a, b, b[i]);
            lemma_same_members(a, b, b[j]);
            let k = choose|k: int| 0 <= k < a.len() && a[k] == b[i];
            let l = choose|l: int| 0 <= l < a.len() && a[l] == b[j];
            assert(given_name(a, a[k]) == given_name(a, a[l]));
        }
        lemma_led_to(b, a, name);
    }
}

/// The level after `n` steps from the default.
pub open spec fn stepped(rungs: Seq<ReasoningEffort>, n: nat) -> Option<ReasoningEffort>
    decreases n,
{
    if n == 0 {
        None
    } else {
        next_on(stepped(rungs, (n - 1) as nat), rungs)
    }
}

/// Tapping through visits every rung of a ladder in order and returns to the default.
pub proof fn cycling_visits_every_rung(rungs: Seq<ReasoningEffort>, n: nat)
    requires
        rungs.no_duplicates(),
        1 <= n <= rungs.len(),
    ensures
        stepped(rungs, n) == Some(rungs[n - 1]),
        stepped(rungs, rungs.len() + 1) is None,
    decreases n,
{
    lemma_steps(rungs, n);
    lemma_steps(rungs, rungs.len());
    lemma_rung_at(rungs, rungs.len() - 1, 0);
}

proof fn lemma_steps(rungs: Seq<ReasoningEffort>, n: nat)
    requires
        rungs.no_duplicates(),
        1 <= n <= rungs.len(),
    ensures
        stepped(rungs, n) == Some(rungs[n - 1]),
    decreases n,
{
    if n == 1 {
        assert(stepped(rungs, 0) is None);
    } else {
        lemma_steps(rungs, (n - 1) as nat);
        lemma_rung_at(rungs, n - 2, 0);
    }
}

proof fn lemma_rung_at(rungs: Seq<ReasoningEffort>, i: int, k: int)
    requires
        rungs.no_duplicates(),
        0 <= k <= i < rungs.len(),
    ensures
        rung_at(rungs, rungs[i], k) == Some(i),
    decreases i - k,
{
    if k < i {
        lemma_rung_at(rungs, i, k + 1);
    }
}

/// A text whose first word holds, behind its first character, one that no name may hold is no
/// command: so a prompt that begins with a path is still a prompt.
pub proof fn a_path_is_not_a_command(line: Seq<char>, k: int)
    requires
        line.len() > 0,
        1 <= k < 1 + name_end(line.skip(1), 0),
        k < line.len(),
        !name_char(line[k]),
    ensures
        parsed(line) is None,
{
    let rest = line.skip(1);
    let end = name_end(rest, 0);
    if line[0] == '/' {
        lemma_name_end(rest, 0);
        assert(rest.take(end)[k - 1] == line[k]);
    }
}

/// Where a name ends: at the first white space or at the end.
proof fn lemma_name_end(s: Seq<char>, k: int)
    requires
        0 <= k <= s.len(),
    ensures
        k <= name_end(s, k) <= s.len(),
        forall|i: int| k <= i < name_end(s, k) ==> !white_space(#[trigger] s[i]),
        name_end(s, k) < s.len() ==> white_space(s[name_end(s, k)]),
    decreases s.len() - k,
{
    if k < s.len() && !white_space(s[k]) {
        lemma_name_end(s, k + 1);
    }
}

/// A line is a command just where it is a slash, a name and then nothing or white space and what
/// follows it; and what is read of it is that name and what follows.
pub proof fn a_command_is_a_slash_and_a_name(line: Seq<char>)
    ensures
        match parsed(line) {
            Some((name, arguments)) => {
                let rest = line.skip(name.len() as int + 1);
                &&& line.len() >= name.len() + 1
                &&& line.take(name.len() as int + 1) == seq!['/'] + name
                &&& is_name(name)
                &&& rest.len() > 0 ==> white_space(rest[0])
                &&& text::seen(arguments) == text::seen(rest)
                &&& arguments.len() > 0 ==> !white_space(arguments[0])
                &&& arguments.len() <= rest.len()
                &&& arguments == rest.skip(rest.len() - arguments.len())
            },
            None => forall|n: int|
                1 <= n <= line.len() && line[0] == '/' && (n < line.len() ==> white_space(line[n]))
                    && (forall|i: int| 1 <= i < n ==> !white_space(#[trigger] line[i]))
                    ==> !is_name(#[trigger] line.subrange(1, n)),
        },
{
    if line.len() > 0 && line[0] == '/' {
        let rest = line.skip(1);
        let end = name_end(rest, 0);
        lemma_name_end(rest, 0);
        let name = rest.take(end);
        if is_name(name) {
            let behind = rest.skip(end);
            assert(line.take(end + 1) =~= seq!['/'] + name);
            assert(line.skip(end + 1) =~= behind);
            text::lemma_trim_starts(behind);
            let arguments = trimmed_start(behind);
            let white = behind.take(behind.len() - arguments.len());
            assert(behind =~= white + arguments);
            text::lemma_seen_add(white, arguments);
            lemma_white_unseen(white);
            assert(text::seen(white) =~= Seq::<char>::empty());
            assert(text::seen(behind) =~= text::seen(arguments));
        } else {
            assert forall|n: int|
                1 <= n <= line.len() && line[0] == '/' && (n < line.len() ==> white_space(line[n]))
                    && (forall|i: int| 1 <= i < n ==> !white_space(#[trigger] line[i])) implies !is_name(
                #[trigger] line.subrange(1, n),
            ) by {
                if n - 1 < end {
                    assert(rest[n - 1] == line[n]);
                } else if n - 1 > end {
                    assert(rest[end] == line[end + 1]);
                }
                assert(line.subrange(1, n) =~= name);
            }
        }
    }
}

proof fn lemma_white_unseen(s: Seq<char>)
    requires
        forall|k: int| 0 <= k < s.len() ==> white_space(#[trigger] s[k]),
    ensures
        text::seen(s).len() == 0,
    decreases s.len(),
{
    text::lemma_seen_nothing();
    if s.len() > 0 {
        let init = s.drop_last();
        assert forall|k: int| 0 <= k < init.len() implies white_space(#[trigger] init[k]) by {
            assert(init[k] == s[k]);
        }
        lemma_white_unseen(init);
        assert(white_space(s[s.len() - 1]));
        text::lemma_seen_push(init, s[s.len() - 1]);
        assert(init.push(s[s.len() - 1]) =~= s);
    } else {
        assert(s =~= Seq::<char>::empty());
    }
}

/// What completes a prefix is every entry whose name starts with it, in order, and nothing else; a
/// name leads to the first entry of that name.
pub proof fn completion_offers_what_begins_alike(
    entries: Seq<SlashCommandView>,
    prefix: Seq<char>,
)
    ensures
        beginning(entries, prefix) == entries.filter(
            |e: SlashCommandView|
                e.name.len() >= prefix.len() && e.name.take(prefix.len() as int) == prefix,
        ),
        match found(entries, prefix) {
            Some(i) => 0 <= i < entries.len() && entries[i].name == prefix && forall|j: int|
                0 <= j < i ==> (#[trigger] entries[j]).name != prefix,
            None => forall|j: int| 0 <= j < entries.len() ==> (#[trigger] entries[j]).name != prefix,
        },
    decreases entries.len(),
{
    reveal(Seq::filter);
    if entries.len() > 0 {
        let init = entries.drop_last();
        completion_offers_what_begins_alike(init, prefix);
        let name = entries.last().name;
        if name.len() >= prefix.len() {
            assert(name.subrange(0, prefix.len() as int) =~= name.take(prefix.len() as int));
        }
        assert(has_prefix(name, prefix) == (name.len() >= prefix.len() && name.take(
            prefix.len() as int,
        ) == prefix));
        assert forall|j: int| 0 <= j < init.len() implies #[trigger] entries[j] == init[j] by {}
    }
}

/// Every contribution has its entry, with its own description and leading to its own file; and how
/// many claim a name is how many are called so.
pub proof fn every_contribution_has_its_entry(plugins: Seq<PluginCommandView>, name: Seq<char>)
    ensures
        plugin_entries(plugins).len() == plugins.len(),
        forall|i: int|
            0 <= i < plugins.len() ==> {
                let entry = #[trigger] plugin_entries(plugins)[i];
                &&& entry.description == plugins[i].description
                &&& entry.action == SlashActionView::Prompt(plugins[i].path)
                &&& entry.name == plugins[i].name || entry.name == plugins[i].plugin + seq![':']
                    + plugins[i].name
            },
        claims(plugins, name) == plugins.filter(|p: PluginCommandView| p.name == name).len(),
    decreases plugins.len(),
{
    reveal(Seq::filter);
    reveal_strlit(":");
    assert(":"@ =~= seq![':']);
    if plugins.len() > 0 {
        every_contribution_has_its_entry(plugins.drop_last(), name);
    }
}

} // verus!
