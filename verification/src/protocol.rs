//! The neutral vocabulary of a conversation: messages, tool calls and their results, and
//! the JSON values they carry.

use vstd::prelude::*;
use crate::text;

verus! {

/// A JSON value. A number is held as its numeral.
#[derive(Debug, PartialEq, Eq)]
pub enum Json {
    Null,
    Bool(bool),
    Number(String),
    Text(String),
    Array(Vec<Json>),
    Object(Vec<(String, Json)>),
    /// The value that this JSON text spells.
    Raw(String),
}

/// What a [`Json`] value says.
#[verifier::ext_equal]
pub enum JsonView {
    Null,
    Bool(bool),
    Number(Seq<char>),
    Text(Seq<char>),
    Array(Seq<JsonView>),
    Object(Seq<(Seq<char>, JsonView)>),
    Raw(Seq<char>),
}

/// What a value says.
pub open spec fn json_view(value: Json) -> JsonView
    decreases value,
{
    match value {
        Json::Null => JsonView::Null,
        Json::Bool(b) => JsonView::Bool(b),
        Json::Number(n) => JsonView::Number(n@),
        Json::Text(t) => JsonView::Text(t@),
        Json::Array(items) => JsonView::Array(json_views(items@)),
        Json::Object(members) => JsonView::Object(member_views(members@)),
        Json::Raw(t) => JsonView::Raw(t@),
    }
}

/// What the items of an array say.
pub open spec fn json_views(items: Seq<Json>) -> Seq<JsonView>
    decreases items,
{
    if items.len() == 0 {
        Seq::empty()
    } else {
        json_views(items.drop_last()).push(json_view(items.last()))
    }
}

/// What the members of an object say.
pub open spec fn member_views(members: Seq<(String, Json)>) -> Seq<(Seq<char>, JsonView)>
    decreases members,
{
    if members.len() == 0 {
        Seq::empty()
    } else {
        member_views(members.drop_last()).push((members.last().0@, json_view(members.last().1)))
    }
}

impl View for Json {
    type V = JsonView;

    open spec fn view(&self) -> JsonView {
        json_view(*self)
    }
}

/// Views are taken item by item.
pub(crate) proof fn lemma_json_views(items: Seq<Json>)
    ensures
        json_views(items).len() == items.len(),
        forall|i: int|
            0 <= i < items.len() ==> #[trigger] json_views(items)[i] == json_view(items[i]),
    decreases items.len(),
{
    if items.len() > 0 {
        lemma_json_views(items.drop_last());
    }
}

/// Views are taken member by member.
pub(crate) proof fn lemma_member_views(members: Seq<(String, Json)>)
    ensures
        member_views(members).len() == members.len(),
        forall|i: int|
            0 <= i < members.len() ==> #[trigger] member_views(members)[i] == (
                members[i].0@,
                json_view(members[i].1),
            ),
    decreases members.len(),
{
    if members.len() > 0 {
        lemma_member_views(members.drop_last());
    }
}

impl Json {
    /// A JSON string.
    pub fn text(s: &str) -> (r: Json)
        ensures
            r@ == JsonView::Text(s@),
    {
        Json::Text(text::copy(s))
    }

    /// A JSON number that is a whole number.
    pub fn number(n: u64) -> (r: Json)
        ensures
            r@ == JsonView::Number(text::decimal_of(n as nat)),
    {
        Json::Number(text::decimal(n))
    }

    /// A copy of this value.
    pub fn copy(&self) -> (r: Json)
        ensures
            r@ == self@,
        decreases self,
    {
        match self {
            Json::Null => Json::Null,
            Json::Bool(b) => Json::Bool(*b),
            Json::Number(n) => Json::Number(n.clone()),
            Json::Text(t) => Json::Text(t.clone()),
            Json::Raw(t) => Json::Raw(t.clone()),
            Json::Array(items) => {
                let mut r: Vec<Json> = Vec::new();
                let mut i: usize = 0;
                while i < items.len()
                    invariant
                        i <= items.len(),
                        self == Json::Array(*items),
                        json_views(r@) == json_views(items@.take(i as int)),
                    decreases items.len() - i,
                {
                    let ghost before = r@;
                    proof {
                        assert(decreases_to!(*self => self->Array_0));
                        assert(decreases_to!(*items => items@));
                        assert(decreases_to!(items@ => items@[i as int]));
                        assert(items@.take(i as int + 1).drop_last() =~= items@.take(i as int));
                    }
                    r.push(items[i].copy());
                    assert(r@.drop_last() =~= before);
                    i += 1;
                }
                assert(items@.take(i as int) =~= items@);
                Json::Array(r)
            },
            Json::Object(members) => {
                let mut r: Vec<(String, Json)> = Vec::new();
                let mut i: usize = 0;
                while i < members.len()
                    invariant
                        i <= members.len(),
                        self == Json::Object(*members),
                        member_views(r@) == member_views(members@.take(i as int)),
                    decreases members.len() - i,
                {
                    let ghost before = r@;
                    proof {
                        assert(decreases_to!(*self => self->Object_0));
                        assert(decreases_to!(*members => members@));
                        assert(decreases_to!(members@ => members@[i as int]));
                        assert(decreases_to!(members@[i as int] => members@[i as int].1));
                        assert(members@.take(i as int + 1).drop_last() =~= members@.take(i as int));
                    }
                    r.push((members[i].0.clone(), members[i].1.copy()));
                    assert(r@.drop_last() =~= before);
                    i += 1;
                }
                assert(members@.take(i as int) =~= members@);
                Json::Object(r)
            },
        }
    }
}

/// The first of some members with this key.
pub open spec fn member_named(members: Seq<(Seq<char>, JsonView)>, key: Seq<char>) -> Option<
    JsonView,
>
    decreases members.len(),
{
    if members.len() == 0 {
        None
    } else {
        match member_named(members.drop_last(), key) {
            Some(value) => Some(value),
            None => if members.last().0 == key {
                Some(members.last().1)
            } else {
                None
            },
        }
    }
}

/// The member of an object with this key; no other value has members.
pub open spec fn member_of(value: JsonView, key: Seq<char>) -> Option<JsonView> {
    match value {
        JsonView::Object(members) => member_named(members, key),
        _ => None,
    }
}

/// The text of a member that is a string.
pub open spec fn text_member(value: JsonView, key: Seq<char>) -> Option<Seq<char>> {
    match member_of(value, key) {
        Some(JsonView::Text(t)) => Some(t),
        _ => None,
    }
}

impl Json {
    /// The member of an object with this key.
    pub fn get(&self, key: &str) -> (r: Option<&Json>)
        ensures
            match member_of(self@, key@) {
                Some(value) => r is Some && (*r->0)@ == value,
                None => r is None,
            },
    {
        let Json::Object(members) = self else {
            return None;
        };
        let ghost views = member_views(members@);
        proof {
            lemma_member_views(members@);
            assert(views.take(0) =~= Seq::empty());
        }
        let mut i: usize = 0;
        while i < members.len()
            invariant
                i <= members.len(),
                self@ == JsonView::Object(views),
                views == member_views(members@),
                views.len() == members.len(),
                forall|k: int|
                    0 <= k < members.len() ==> #[trigger] views[k] == (
                        members@[k].0@,
                        json_view(members@[k].1),
                    ),
                member_named(views.take(i as int), key@) is None,
            decreases members.len() - i,
        {
            assert(views.take(i as int + 1).drop_last() =~= views.take(i as int));
            assert(views[i as int] == (members@[i as int].0@, json_view(members@[i as int].1)));
            if text::eq(members[i].0.as_str(), key) {
                proof {
                    lemma_member_found(views, key@, i as int + 1);
                }
                return Some(&members[i].1);
            }
            i += 1;
        }
        assert(views.take(i as int) =~= views);
        None
    }

    /// The text of a member that is a string.
    pub fn get_text(&self, key: &str) -> (r: Option<&str>)
        ensures
            match text_member(self@, key@) {
                Some(value) => r is Some && r->0@ == value,
                None => r is None,
            },
    {
        match self.get(key) {
            Some(Json::Text(t)) => Some(t.as_str()),
            _ => None,
        }
    }
}

/// What is found among the first members is found among all.
proof fn lemma_member_found(members: Seq<(Seq<char>, JsonView)>, key: Seq<char>, n: int)
    requires
        0 <= n <= members.len(),
        member_named(members.take(n), key) is Some,
    ensures
        member_named(members, key) == member_named(members.take(n), key),
    decreases members.len(),
{
    if n == members.len() {
        assert(members.take(n) =~= members);
    } else {
        assert(members.drop_last().take(n) =~= members.take(n));
        lemma_member_found(members.drop_last(), key, n);
    }
}

/// Puts one more value at the end of an array.
pub fn push_json(items: &mut Vec<Json>, value: Json)
    ensures
        json_views(final(items)@) == json_views(old(items)@).push(value@),
{
    items.push(value);
    assert(items@.drop_last() =~= old(items)@);
}

/// Puts one more member at the end of an object.
pub fn push_member(members: &mut Vec<(String, Json)>, key: &str, value: Json)
    ensures
        member_views(final(members)@) == member_views(old(members)@).push((key@, value@)),
{
    members.push((text::copy(key), value));
    assert(members@.drop_last() =~= old(members)@);
}

/// An object without members yet.
pub fn no_members() -> (r: Vec<(String, Json)>)
    ensures
        member_views(r@) == Seq::<(Seq<char>, JsonView)>::empty(),
{
    Vec::new()
}

/// An array without items yet.
pub fn no_items() -> (r: Vec<Json>)
    ensures
        json_views(r@) == Seq::<JsonView>::empty(),
{
    Vec::new()
}

/// Appends the items of `more`.
pub fn append_json(items: &mut Vec<Json>, more: Vec<Json>)
    ensures
        json_views(final(items)@) == json_views(old(items)@) + json_views(more@),
{
    let mut more = more;
    let ghost tail = more@;
    items.append(&mut more);
    proof {
        lemma_json_views(items@);
        lemma_json_views(old(items)@);
        lemma_json_views(tail);
        assert(json_views(items@) =~= json_views(old(items)@) + json_views(tail));
    }
}

/// Who a message is from.
#[derive(Clone, Copy, Debug, PartialEq, Eq, Structural)]
pub enum Role {
    System,
    User,
    Assistant,
    Tool,
}

/// How a tool call ended.
#[derive(Clone, Copy, Debug, PartialEq, Eq, Structural)]
pub enum ToolStatus {
    Succeeded,
    Error,
    Denied,
    Cancelled,
}

/// How hard a model is asked to think.
#[derive(Clone, Copy, Debug, PartialEq, Eq, Structural)]
pub enum ReasoningEffort {
    Low,
    Medium,
    High,
    XHigh,
    Max,
    Ultra,
}

/// The word that a level is configured and sent by.
pub open spec fn effort_word(effort: ReasoningEffort) -> Seq<char> {
    match effort {
        ReasoningEffort::Low => "low"@,
        ReasoningEffort::Medium => "medium"@,
        ReasoningEffort::High => "high"@,
        ReasoningEffort::XHigh => "xhigh"@,
        ReasoningEffort::Max => "max"@,
        ReasoningEffort::Ultra => "ultra"@,
    }
}

impl ReasoningEffort {
    /// The word that this level is configured and sent by.
    pub fn as_str(self) -> (r: &'static str)
        ensures
            r@ == effort_word(self),
    {
        match self {
            ReasoningEffort::Low => "low",
            ReasoningEffort::Medium => "medium",
            ReasoningEffort::High => "high",
            ReasoningEffort::XHigh => "xhigh",
            ReasoningEffort::Max => "max",
            ReasoningEffort::Ultra => "ultra",
        }
    }
}

/// The level that a word names.
pub open spec fn effort_named(word: Seq<char>) -> Option<ReasoningEffort> {
    if word == "low"@ {
        Some(ReasoningEffort::Low)
    } else if word == "medium"@ {
        Some(ReasoningEffort::Medium)
    } else if word == "high"@ {
        Some(ReasoningEffort::High)
    } else if word == "xhigh"@ {
        Some(ReasoningEffort::XHigh)
    } else if word == "max"@ {
        Some(ReasoningEffort::Max)
    } else if word == "ultra"@ {
        Some(ReasoningEffort::Ultra)
    } else {
        None
    }
}

impl ReasoningEffort {
    /// The level that `word` names, or a sentence that says it names none.
    pub fn parse(word: &str) -> (r: Result<ReasoningEffort, String>)
        ensures
            match effort_named(word@) {
                Some(level) => r == Ok::<ReasoningEffort, String>(level),
                None => r is Err && r->Err_0@ == "unknown reasoning effort `"@ + word@ + "`"@,
            },
    {
        if text::eq(word, "low") {
            Ok(ReasoningEffort::Low)
        } else if text::eq(word, "medium") {
            Ok(ReasoningEffort::Medium)
        } else if text::eq(word, "high") {
            Ok(ReasoningEffort::High)
        } else if text::eq(word, "xhigh") {
            Ok(ReasoningEffort::XHigh)
        } else if text::eq(word, "max") {
            Ok(ReasoningEffort::Max)
        } else if text::eq(word, "ultra") {
            Ok(ReasoningEffort::Ultra)
        } else {
            Err(text::concat3("unknown reasoning effort `", word, "`"))
        }
    }
}

/// When a person is asked before a call runs.
#[derive(Clone, Copy, Debug, PartialEq, Eq, Structural)]
pub enum ApprovalPolicy {
    OnRequest,
    OnFailure,
    Never,
}

/// An image, its data in base64.
#[derive(Debug, PartialEq, Eq)]
pub struct ImageBlock {
    pub media_type: String,
    pub data: String,
}

/// What an [`ImageBlock`] says.
pub struct ImageView {
    pub media_type: Seq<char>,
    pub data: Seq<char>,
}

impl View for ImageBlock {
    type V = ImageView;

    open spec fn view(&self) -> ImageView {
        ImageView { media_type: self.media_type@, data: self.data@ }
    }
}

/// A call that the model made.
#[derive(Debug, PartialEq, Eq)]
pub struct ToolCall {
    pub id: String,
    pub name: String,
    pub arguments: Json,
}

/// What a [`ToolCall`] says.
pub struct ToolCallView {
    pub id: Seq<char>,
    pub name: Seq<char>,
    pub arguments: JsonView,
}

impl View for ToolCall {
    type V = ToolCallView;

    open spec fn view(&self) -> ToolCallView {
        ToolCallView { id: self.id@, name: self.name@, arguments: self.arguments@ }
    }
}

/// One block of a message.
#[derive(Debug, PartialEq, Eq)]
pub enum ContentBlock {
    Text { text: String },
    Thinking { text: String, signature: Option<String> },
    Image(ImageBlock),
    ToolCall(ToolCall),
    ToolResult(ToolResult),
}

/// What a tool call came to.
#[derive(Debug, PartialEq, Eq)]
pub struct ToolResult {
    pub id: String,
    pub status: ToolStatus,
    /// What the model sees.
    pub content: Vec<ContentBlock>,
    /// The structured value, kept for replay and for surfaces.
    pub value: Option<Json>,
}

/// What a [`ContentBlock`] says.
pub enum BlockView {
    Text { text: Seq<char> },
    Thinking { text: Seq<char>, signature: Option<Seq<char>> },
    Image(ImageView),
    ToolCall(ToolCallView),
    ToolResult(ToolResultView),
}

/// What a [`ToolResult`] says.
pub struct ToolResultView {
    pub id: Seq<char>,
    pub status: ToolStatus,
    pub content: Seq<BlockView>,
    pub value: Option<JsonView>,
}

/// What a block says.
pub open spec fn block_view(block: ContentBlock) -> BlockView
    decreases block,
{
    match block {
        ContentBlock::Text { text } => BlockView::Text { text: text@ },
        ContentBlock::Thinking { text, signature } => BlockView::Thinking {
            text: text@,
            signature: text::opt(signature),
        },
        ContentBlock::Image(image) => BlockView::Image(image@),
        ContentBlock::ToolCall(call) => BlockView::ToolCall(call@),
        ContentBlock::ToolResult(result) => BlockView::ToolResult(result_view(result)),
    }
}

/// What a result says.
pub open spec fn result_view(result: ToolResult) -> ToolResultView
    decreases result,
{
    ToolResultView {
        id: result.id@,
        status: result.status,
        content: block_views(result.content@),
        value: match result.value {
            Some(value) => Some(value@),
            None => None,
        },
    }
}

/// What the blocks of a message say.
pub open spec fn block_views(blocks: Seq<ContentBlock>) -> Seq<BlockView>
    decreases blocks,
{
    if blocks.len() == 0 {
        Seq::empty()
    } else {
        block_views(blocks.drop_last()).push(block_view(blocks.last()))
    }
}

impl View for ContentBlock {
    type V = BlockView;

    open spec fn view(&self) -> BlockView {
        block_view(*self)
    }
}

impl View for ToolResult {
    type V = ToolResultView;

    open spec fn view(&self) -> ToolResultView {
        result_view(*self)
    }
}

/// Views are taken block by block.
pub(crate) proof fn lemma_block_views(blocks: Seq<ContentBlock>)
    ensures
        block_views(blocks).len() == blocks.len(),
        forall|i: int|
            0 <= i < blocks.len() ==> #[trigger] block_views(blocks)[i] == block_view(blocks[i]),
    decreases blocks.len(),
{
    if blocks.len() > 0 {
        lemma_block_views(blocks.drop_last());
    }
}

impl ContentBlock {
    /// A block of text.
    pub fn text(s: &str) -> (r: ContentBlock)
        ensures
            r@ == (BlockView::Text { text: s@ }),
    {
        ContentBlock::Text { text: text::copy(s) }
    }
}

/// The single block of text that a tool shows the model.
pub fn one_text(s: &str) -> (r: Vec<ContentBlock>)
    ensures
        block_views(r@) == seq![BlockView::Text { text: s@ }],
{
    let mut r: Vec<ContentBlock> = Vec::new();
    let ghost none = r@;
    r.push(ContentBlock::text(s));
    proof {
        assert(r@.drop_last() =~= none);
        assert(block_views(none) =~= Seq::empty());
        assert(block_views(r@) =~= seq![BlockView::Text { text: s@ }]);
    }
    r
}

/// One message of a conversation.
#[derive(Debug, PartialEq, Eq)]
pub struct Message {
    pub role: Role,
    pub content: Vec<ContentBlock>,
}

/// What a [`Message`] says.
pub struct MessageView {
    pub role: Role,
    pub content: Seq<BlockView>,
}

impl View for Message {
    type V = MessageView;

    open spec fn view(&self) -> MessageView {
        MessageView { role: self.role, content: block_views(self.content@) }
    }
}

/// What a list of messages says.
pub open spec fn message_views(messages: Seq<Message>) -> Seq<MessageView> {
    messages.map_values(|m: Message| m@)
}

impl Message {
    /// A message of the person at the keyboard.
    pub fn user(s: &str) -> (r: Message)
        ensures
            r@ == (MessageView { role: Role::User, content: seq![BlockView::Text { text: s@ }] }),
    {
        Message { role: Role::User, content: one_text(s) }
    }
}

/// The text blocks of a message, one after the other.
pub open spec fn text_of(blocks: Seq<BlockView>) -> Seq<char>
    decreases blocks.len(),
{
    if blocks.len() == 0 {
        Seq::empty()
    } else {
        let before = text_of(blocks.drop_last());
        match blocks.last() {
            BlockView::Text { text } => before + text,
            _ => before,
        }
    }
}

/// The text blocks of a message, one after the other.
pub fn joined_text(blocks: &Vec<ContentBlock>) -> (r: String)
    ensures
        r@ == text_of(block_views(blocks@)),
{
    let ghost views = block_views(blocks@);
    let mut r = String::new();
    let mut i: usize = 0;
    proof {
        lemma_block_views(blocks@);
        assert(r@ =~= text_of(views.take(0)));
    }
    while i < blocks.len()
        invariant
            i <= blocks.len(),
            views == block_views(blocks@),
            views.len() == blocks.len(),
            forall|k: int| 0 <= k < blocks.len() ==> #[trigger] views[k] == block_view(blocks@[k]),
            r@ == text_of(views.take(i as int)),
        decreases blocks.len() - i,
    {
        assert(views.take(i as int + 1).drop_last() =~= views.take(i as int));
        assert(views[i as int] == block_view(blocks@[i as int]));
        if let ContentBlock::Text { text } = &blocks[i] {
            r.append(text.as_str());
        }
        i += 1;
    }
    assert(views.take(i as int) =~= views);
    r
}

/// The first block of text.
pub open spec fn first_text_of(blocks: Seq<BlockView>) -> Option<Seq<char>>
    decreases blocks.len(),
{
    if blocks.len() == 0 {
        None
    } else {
        match blocks[0] {
            BlockView::Text { text } => Some(text),
            _ => first_text_of(blocks.drop_first()),
        }
    }
}

/// The first block of text.
pub fn first_text(blocks: &Vec<ContentBlock>) -> (r: Option<String>)
    ensures
        text::opt(r) == first_text_of(block_views(blocks@)),
{
    let ghost views = block_views(blocks@);
    let mut i: usize = 0;
    proof {
        lemma_block_views(blocks@);
        assert(views.skip(0) =~= views);
    }
    while i < blocks.len()
        invariant
            i <= blocks.len(),
            views == block_views(blocks@),
            views.len() == blocks.len(),
            forall|k: int| 0 <= k < blocks.len() ==> #[trigger] views[k] == block_view(blocks@[k]),
            first_text_of(views) == first_text_of(views.skip(i as int)),
        decreases blocks.len() - i,
    {
        assert(views.skip(i as int)[0] == views[i as int]);
        assert(views.skip(i as int).drop_first() =~= views.skip(i as int + 1));
        if let ContentBlock::Text { text } = &blocks[i] {
            return Some(text.clone());
        }
        i += 1;
    }
    None
}

/// The answer that a person gave to an approval request.
#[derive(Clone, Copy, Debug, PartialEq, Eq, Structural)]
pub enum PermissionAnswer {
    Allow,
    AllowAlways,
    Deny,
}

/// Why a reply ended.
#[derive(Debug, PartialEq, Eq)]
pub enum StopReason {
    EndTurn,
    ToolUse,
    MaxTokens,
    Refusal { message: String },
    Cancelled,
}

/// What a [`StopReason`] says.
pub enum StopView {
    EndTurn,
    ToolUse,
    MaxTokens,
    Refusal { message: Seq<char> },
    Cancelled,
}

impl View for StopReason {
    type V = StopView;

    open spec fn view(&self) -> StopView {
        match self {
            StopReason::EndTurn => StopView::EndTurn,
            StopReason::ToolUse => StopView::ToolUse,
            StopReason::MaxTokens => StopView::MaxTokens,
            StopReason::Refusal { message } => StopView::Refusal { message: message@ },
            StopReason::Cancelled => StopView::Cancelled,
        }
    }
}

/// The tokens that a call was charged.
#[derive(Clone, Copy, Debug, PartialEq, Eq, Structural)]
pub struct Usage {
    pub input_tokens: u64,
    pub output_tokens: u64,
    pub cached_input_tokens: u64,
    pub reasoning_tokens: u64,
}

impl Default for Usage {
    fn default() -> (r: Usage)
        ensures
            r == (Usage {
                input_tokens: 0,
                output_tokens: 0,
                cached_input_tokens: 0,
                reasoning_tokens: 0,
            }),
    {
        Usage { input_tokens: 0, output_tokens: 0, cached_input_tokens: 0, reasoning_tokens: 0 }
    }
}

// Laws.

/// A level is known by its word, and by that word alone.
pub proof fn a_level_is_known_by_its_word(effort: ReasoningEffort, word: Seq<char>)
    ensures
        effort_named(effort_word(effort)) == Some(effort),
        effort_named(word) == Some(effort) ==> word == effort_word(effort),
{
    reveal_strlit("low");
    reveal_strlit("medium");
    reveal_strlit("high");
    reveal_strlit("xhigh");
    reveal_strlit("max");
    reveal_strlit("ultra");
    assert("low"@.len() == 3 && "medium"@.len() == 6 && "high"@.len() == 4);
    assert("xhigh"@.len() == 5 && "max"@.len() == 3 && "ultra"@.len() == 5);
    assert("low"@[0] == 'l' && "max"@[0] == 'm' && "xhigh"@[0] == 'x' && "ultra"@[0] == 'u');
}

/// Where a key occurs more than once in an object, the first member with it counts.
pub proof fn the_first_member_of_a_name_counts(
    members: Seq<(Seq<char>, JsonView)>,
    key: Seq<char>,
)
    ensures
        match member_named(members, key) {
            Some(value) => exists|i: int|
                {
                    &&& 0 <= i < members.len()
                    &&& #[trigger] members[i] == (key, value)
                    &&& forall|j: int| 0 <= j < i ==> (#[trigger] members[j]).0 != key
                },
            None => forall|j: int| 0 <= j < members.len() ==> (#[trigger] members[j]).0 != key,
        },
    decreases members.len(),
{
    if members.len() > 0 {
        let init = members.drop_last();
        let n = members.len() - 1;
        the_first_member_of_a_name_counts(init, key);
        assert forall|j: int| 0 <= j < n implies #[trigger] members[j] == init[j] by {}
        if member_named(init, key) is Some {
            let value = member_named(init, key)->0;
            let i = choose|i: int|
                {
                    &&& 0 <= i < init.len()
                    &&& #[trigger] init[i] == (key, value)
                    &&& forall|j: int| 0 <= j < i ==> (#[trigger] init[j]).0 != key
                };
            assert(members[i] == init[i]);
            assert forall|j: int| 0 <= j < i implies (#[trigger] members[j]).0 != key by {
                assert(members[j] == init[j]);
            }
        } else {
            assert forall|j: int| 0 <= j < n implies (#[trigger] members[j]).0 != key by {
                assert(members[j] == init[j]);
            }
            if members[n].0 == key {
                assert(members[n] == (key, members[n].1));
            }
        }
    }
}

/// The first text of some blocks is that of the first block that is one.
pub proof fn the_first_text_is_the_first(blocks: Seq<BlockView>)
    ensures
        match first_text_of(blocks) {
            Some(text) => exists|i: int|
                {
                    &&& 0 <= i < blocks.len()
                    &&& #[trigger] blocks[i] == (BlockView::Text { text })
                    &&& forall|j: int| 0 <= j < i ==> !((#[trigger] blocks[j]) is Text)
                },
            None => forall|j: int| 0 <= j < blocks.len() ==> !((#[trigger] blocks[j]) is Text),
        },
    decreases blocks.len(),
{
    if blocks.len() > 0 {
        if blocks[0] is Text {
            assert(blocks[0] == (BlockView::Text { text: first_text_of(blocks)->0 }));
        } else {
            let rest = blocks.drop_first();
            the_first_text_is_the_first(rest);
            if first_text_of(rest) is Some {
                let text = first_text_of(rest)->0;
                let i = choose|i: int|
                    {
                        &&& 0 <= i < rest.len()
                        &&& #[trigger] rest[i] == (BlockView::Text { text })
                        &&& forall|j: int| 0 <= j < i ==> !((#[trigger] rest[j]) is Text)
                    };
                assert(blocks[i + 1] == rest[i]);
                assert forall|j: int| 0 <= j < i + 1 implies !((#[trigger] blocks[j]) is Text) by {
                    if j > 0 {
                        assert(blocks[j] == rest[j - 1]);
                    }
                }
            } else {
                assert forall|j: int| 0 <= j < blocks.len() implies !((
                #[trigger] blocks[j]) is Text) by {
                    if j > 0 {
                        assert(blocks[j] == rest[j - 1]);
                    }
                }
            }
        }
    }
}

} // verus!
