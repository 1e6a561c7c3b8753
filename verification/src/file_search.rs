//! `@`-completion for the composer: the state of a fuzzy file picker.
//!
//! The matcher itself runs elsewhere. This is what is asked of it, which of its snapshots are
//! taken, and what accepting one of its results does to the line.

use vstd::prelude::*;
use crate::text;

verus! {

/// The `@`-token being typed: where its path stands in the line, in characters and without the
/// `@`, what to look for, and whether it is looking inside a directory.
#[derive(Debug, PartialEq, Eq)]
pub struct AtContext {
    pub from: usize,
    pub to: usize,
    pub query: String,
    pub dir_mode: bool,
}

/// What an [`AtContext`] says.
pub struct AtContextView {
    pub from: int,
    pub to: int,
    pub query: Seq<char>,
    pub dir_mode: bool,
}

impl View for AtContext {
    type V = AtContextView;

    open spec fn view(&self) -> AtContextView {
        AtContextView {
            from: self.from as int,
            to: self.to as int,
            query: self.query@,
            dir_mode: self.dir_mode,
        }
    }
}

/// A token that may be missing.
pub open spec fn context_view(context: Option<AtContext>) -> Option<AtContextView> {
    match context {
        Some(context) => Some(context@),
        None => None,
    }
}

/// A file or a folder that matched, as it is shown.
#[derive(Debug, PartialEq, Eq)]
pub struct FileMatch {
    pub path: String,
    pub is_dir: bool,
}

/// What a [`FileMatch`] says.
pub struct FileMatchView {
    pub path: Seq<char>,
    pub is_dir: bool,
}

impl View for FileMatch {
    type V = FileMatchView;

    open spec fn view(&self) -> FileMatchView {
        FileMatchView { path: self.path@, is_dir: self.is_dir }
    }
}

/// What some matches say.
pub open spec fn match_views(matches: Seq<FileMatch>) -> Seq<FileMatchView> {
    matches.map_values(|m: FileMatch| m@)
}

/// What the matcher has found so far.
#[derive(Debug, PartialEq, Eq)]
pub struct Snapshot {
    pub matches: Vec<FileMatch>,
    /// Which query this is an answer to.
    pub generation: usize,
    /// Whether the matcher is done.
    pub done: bool,
    /// Whether this is not the snapshot that was taken last.
    pub fresh: bool,
}

/// What to ask of the matcher.
#[derive(Debug, PartialEq, Eq)]
pub enum Ask {
    /// Nothing.
    Nothing,
    /// Walk the files anew, and look for this.
    Start(String),
    /// Look for this now, inside a directory or not.
    Refine { query: String, dir_mode: bool },
}

/// What an [`Ask`] says.
pub enum AskView {
    Nothing,
    Start(Seq<char>),
    Refine { query: Seq<char>, dir_mode: bool },
}

impl View for Ask {
    type V = AskView;

    open spec fn view(&self) -> AskView {
        match self {
            Ask::Nothing => AskView::Nothing,
            Ask::Start(query) => AskView::Start(query@),
            Ask::Refine { query, dir_mode } => AskView::Refine {
                query: query@,
                dir_mode: *dir_mode,
            },
        }
    }
}

/// What accepting a result does to the line.
#[derive(Debug, PartialEq, Eq)]
pub struct FileSearchReplacement {
    /// The characters of the line to replace, without the `@`.
    pub from: usize,
    pub to: usize,
    /// What to put there.
    pub text: String,
}

/// What a [`FileSearchReplacement`] says.
pub struct ReplacementView {
    pub from: int,
    pub to: int,
    pub text: Seq<char>,
}

impl View for FileSearchReplacement {
    type V = ReplacementView;

    open spec fn view(&self) -> ReplacementView {
        ReplacementView { from: self.from as int, to: self.to as int, text: self.text@ }
    }
}

/// `@`-completion state: the current token, what was found for it, and the dropdown's selection.
#[derive(Debug, PartialEq, Eq)]
pub struct FileSearchState {
    results: Vec<FileMatch>,
    context: Option<AtContext>,
    selected: usize,
    min_generation: usize,
}

/// What a [`FileSearchState`] knows.
pub struct FileSearchView {
    pub results: Seq<FileMatchView>,
    pub context: Option<AtContextView>,
    pub selected: int,
    /// A new query bumps this, and a snapshot that predates it is dropped. It keeps matches of a
    /// prior query from flickering into a newer, still-empty one.
    pub min_generation: int,
}

impl View for FileSearchState {
    type V = FileSearchView;

    closed spec fn view(&self) -> FileSearchView {
        FileSearchView {
            results: match_views(self.results@),
            context: context_view(self.context),
            selected: self.selected as int,
            min_generation: self.min_generation as int,
        }
    }
}

impl FileSearchView {
    /// Nothing typed and nothing found.
    pub open spec fn start() -> FileSearchView {
        FileSearchView {
            results: Seq::empty(),
            context: None,
            selected: 0,
            min_generation: 0,
        }
    }

    /// Without a token.
    pub open spec fn cleared(self) -> FileSearchView {
        FileSearchView { results: Seq::empty(), context: None, selected: 0, ..self }
    }

    /// With another token, and what to ask then. A token that begins, or that steps into or out of
    /// a directory, starts over; one that goes on refines.
    pub open spec fn updated(self, context: Option<AtContextView>) -> (FileSearchView, AskView) {
        match (self.context, context) {
            (None, None) => (self, AskView::Nothing),
            (Some(_), None) => (self.cleared(), AskView::Nothing),
            (None, Some(new)) => (self.asked(context), AskView::Start(new.query)),
            (Some(before), Some(new)) => (
                self.asked(context),
                if before.dir_mode != new.dir_mode {
                    AskView::Start(new.query)
                } else {
                    AskView::Refine { query: new.query, dir_mode: new.dir_mode }
                },
            ),
        }
    }

    /// With a query on its way.
    pub open spec fn asked(self, context: Option<AtContextView>) -> FileSearchView {
        FileSearchView { context, selected: 0, min_generation: self.min_generation + 1, ..self }
    }

    /// Whether a snapshot is taken: one that was not taken before, that answers the last query,
    /// and that is not empty only because the matcher has just begun.
    pub open spec fn takes(self, matches: int, generation: int, done: bool, fresh: bool) -> bool {
        self.context is Some && fresh && (matches > 0 || done) && generation
            >= self.min_generation
    }

    /// With a snapshot taken.
    pub open spec fn taken(self, results: Seq<FileMatchView>, generation: int) -> FileSearchView {
        FileSearchView {
            results,
            min_generation: generation,
            selected: if results.len() > 0 && self.selected >= results.len() {
                results.len() - 1
            } else {
                self.selected
            },
            ..self
        }
    }

    /// With the selection moved, kept on the list.
    pub open spec fn moved(self, delta: int) -> FileSearchView {
        let last = self.results.len() - 1;
        let current = if self.selected < last {
            self.selected
        } else {
            last
        };
        let to = current + delta;
        FileSearchView {
            selected: if self.results.len() == 0 {
                self.selected
            } else if to < 0 {
                0
            } else if to > last {
                last
            } else {
                to
            },
            ..self
        }
    }

    /// What accepting the selected entry does to the line: a directory is followed by a slash, a
    /// file by a space so typing can go on past it.
    pub open spec fn accepted(self) -> Option<ReplacementView> {
        match self.context {
            None => None,
            Some(context) => if self.selected < self.results.len() {
                let entry = self.results[self.selected];
                Some(
                    ReplacementView {
                        from: context.from,
                        to: context.to,
                        text: if entry.is_dir {
                            entry.path + "/"@
                        } else {
                            entry.path + " "@
                        },
                    },
                )
            } else {
                None
            },
        }
    }
}

impl FileSearchState {
    /// Nothing typed and nothing found.
    pub fn new() -> (r: FileSearchState)
        ensures
            r@ == FileSearchView::start(),
    {
        let r = FileSearchState {
            results: Vec::new(),
            context: None,
            selected: 0,
            min_generation: 0,
        };
        assert(r@.results =~= Seq::empty());
        r
    }

    /// Whether the dropdown should be drawn.
    pub fn is_visible(&self) -> (r: bool)
        ensures
            r == (self@.context is Some && self@.results.len() > 0),
    {
        self.context.is_some() && self.results.len() > 0
    }

    /// Whether an `@`-token is being typed, whether or not it has results yet.
    pub fn is_open(&self) -> (r: bool)
        ensures
            r == self@.context is Some,
    {
        self.context.is_some()
    }

    /// Whether the token looks inside a directory.
    pub fn is_dir_mode(&self) -> (r: bool)
        ensures
            r == (self@.context is Some && self@.context->0.dir_mode),
    {
        match &self.context {
            Some(context) => context.dir_mode,
            None => false,
        }
    }

    /// What was found.
    pub fn results(&self) -> (r: &Vec<FileMatch>)
        ensures
            match_views(r@) == self@.results,
    {
        &self.results
    }

    /// Which result is highlighted.
    pub fn selected(&self) -> (r: usize)
        ensures
            r == self@.selected,
    {
        self.selected
    }

    /// The earliest generation of results that is not stale.
    pub fn min_generation(&self) -> (r: usize)
        ensures
            r == self@.min_generation,
    {
        self.min_generation
    }

    /// Takes the token at the cursor, and says what to ask of the matcher. Call after every edit
    /// to the line or move of the cursor.
    pub fn update(&mut self, context: Option<AtContext>) -> (r: Ask)
        requires
            old(self)@.min_generation < usize::MAX,
        ensures
            (final(self)@, r@) == old(self)@.updated(context_view(context)),
    {
        let started = match (&self.context, &context) {
            (None, None) => {
                return Ask::Nothing;
            },
            (Some(_), None) => {
                self.clear();
                return Ask::Nothing;
            },
            (None, Some(_)) => true,
            (Some(before), Some(new)) => before.dir_mode != new.dir_mode,
        };
        self.min_generation = self.min_generation + 1;
        self.selected = 0;
        let ask = match &context {
            Some(new) => if started {
                Ask::Start(new.query.clone())
            } else {
                Ask::Refine { query: new.query.clone(), dir_mode: new.dir_mode }
            },
            None => Ask::Nothing,
        };
        self.context = context;
        ask
    }

    /// Drops the current token (it was left, or accepted).
    pub fn clear(&mut self)
        ensures
            final(self)@ == old(self)@.cleared(),
    {
        self.context = None;
        self.results = Vec::new();
        self.selected = 0;
        assert(self@.results =~= Seq::empty());
    }

    /// Takes a snapshot of what the matcher found. Says whether anything changed.
    pub fn poll(&mut self, snapshot: Snapshot) -> (r: bool)
        ensures
            ({
                let takes = old(self)@.takes(
                    snapshot.matches.len() as int,
                    snapshot.generation as int,
                    snapshot.done,
                    snapshot.fresh,
                );
                &&& r == takes
                &&& final(self)@ == if takes {
                    old(self)@.taken(
                        match_views(snapshot.matches@),
                        snapshot.generation as int,
                    )
                } else {
                    old(self)@
                }
            }),
    {
        if self.context.is_none() || !snapshot.fresh {
            return false;
        }
        if snapshot.matches.len() == 0 && !snapshot.done {
            return false;
        }
        if snapshot.generation < self.min_generation {
            return false;
        }
        self.min_generation = snapshot.generation;
        self.results = snapshot.matches;
        if self.results.len() > 0 && self.selected >= self.results.len() {
            self.selected = self.results.len() - 1;
        }
        true
    }

    /// Moves the highlight.
    pub fn move_selection(&mut self, delta: isize)
        ensures
            final(self)@ == old(self)@.moved(delta as int),
    {
        let len: usize = self.results.len();
        if len == 0 {
            return ;
        }
        let last: usize = len - 1;
        let current: usize = if self.selected < last {
            self.selected
        } else {
            last
        };
        let to: i128 = (current as i128) + (delta as i128);
        self.selected = if to < 0 {
            0
        } else if to > last as i128 {
            last
        } else {
            to as usize
        };
    }

    /// What accepting the selected entry does to the line.
    pub fn accept(&self) -> (r: Option<FileSearchReplacement>)
        ensures
            match self@.accepted() {
                Some(replacement) => r is Some && r->0@ == replacement,
                None => r is None,
            },
    {
        let Some(context) = &self.context else {
            return None;
        };
        if self.selected >= self.results.len() {
            return None;
        }
        let entry = &self.results[self.selected];
        assert(self@.results[self.selected as int] == entry@);
        let tail = if entry.is_dir {
            "/"
        } else {
            " "
        };
        Some(
            FileSearchReplacement {
                from: context.from,
                to: context.to,
                text: text::concat(entry.path.as_str(), tail),
            },
        )
    }
}

/// A snapshot that answers an earlier query is never taken.
pub proof fn a_stale_snapshot_is_dropped(
    state: FileSearchView,
    context: AtContextView,
    matches: int,
    generation: int,
    done: bool,
    fresh: bool,
)
    requires
        generation <= state.min_generation,
    ensures
        !state.updated(Some(context)).0.takes(matches, generation, done, fresh),
{
}

/// Leaving the token leaves nothing on screen.
pub proof fn leaving_the_token_hides_the_list(state: FileSearchView)
    requires
        state.context is Some,
    ensures
        state.updated(None).0.context is None,
        state.updated(None).0.results.len() == 0,
        state.updated(None).1 is Nothing,
{
}

/// Moving the highlight moves it by as many entries as asked, as far as the list goes, and one that
/// went down and up again on the list is where it was.
pub proof fn the_highlight_moves_on_the_list(state: FileSearchView, delta: int)
    requires
        0 <= state.selected < state.results.len(),
    ensures
        0 <= state.moved(delta).selected < state.results.len(),
        0 <= state.selected + delta < state.results.len() ==> {
            &&& state.moved(delta).selected == state.selected + delta
            &&& state.moved(delta).moved(-delta) == state
        },
        state.selected + delta < 0 ==> state.moved(delta).selected == 0,
        state.selected + delta >= state.results.len() ==> state.moved(delta).selected + 1
            == state.results.len(),
        state.moved(delta).results == state.results,
        state.moved(delta).context == state.context,
        state.moved(delta).min_generation == state.min_generation,
{
}

/// Accepting an entry puts its path where the token stood, and nothing else: the line before the
/// token and behind it stays, and behind the path stands a slash where it is a folder and a space
/// where it is a file.
pub proof fn accepting_replaces_the_token(state: FileSearchView, line: Seq<char>)
    requires
        state.context is Some,
        0 <= state.context->0.from <= state.context->0.to <= line.len(),
        0 <= state.selected < state.results.len(),
    ensures
        ({
            let entry = state.results[state.selected];
            let token = state.context->0;
            let done = state.accepted()->0;
            let next = line.take(done.from) + done.text + line.skip(done.to);
            &&& state.accepted() is Some
            &&& next == line.take(token.from) + entry.path + seq![
                if entry.is_dir {
                    '/'
                } else {
                    ' '
                },
            ] + line.skip(token.to)
        }),
{
    reveal_strlit("/");
    reveal_strlit(" ");
    let entry = state.results[state.selected];
    let token = state.context->0;
    let end = seq![
        if entry.is_dir {
            '/'
        } else {
            ' '
        },
    ];
    assert(state.accepted()->0.text =~= entry.path + end);
    assert(line.take(token.from) + (entry.path + end) + line.skip(token.to) =~= line.take(
        token.from,
    ) + entry.path + end + line.skip(token.to));
}

/// Every query is asked once: a token that begins or changes what it looks in starts a walk, one
/// that goes on refines it, and either makes what was found for the one before stale.
pub proof fn a_token_is_asked_for(state: FileSearchView, before: AtContextView, new: AtContextView)
    ensures
        ({
            let begun = (FileSearchView { context: None, ..state }).updated(Some(new));
            let next = (FileSearchView { context: Some(before), ..state }).updated(Some(new));
            &&& begun.1 == AskView::Start(new.query)
            &&& begun.0.context == Some(new)
            &&& next.0.context == Some(new)
            &&& next.0.selected == 0
            &&& begun.0.min_generation == state.min_generation + 1
            &&& next.0.min_generation == state.min_generation + 1
            &&& next.0.results == state.results
            &&& next.1 is Start <==> before.dir_mode != new.dir_mode
            &&& next.1 matches AskView::Start(query) ==> query == new.query
            &&& next.1 matches AskView::Refine { query, dir_mode } ==> query == new.query
                && dir_mode == new.dir_mode
            &&& !(next.1 is Nothing)
        }),
        (FileSearchView { context: None, ..state }).updated(None).1 is Nothing,
        (FileSearchView { context: Some(before), ..state }).updated(None).1 is Nothing,
        (FileSearchView { context: Some(before), ..state }).updated(None).0.context is None,
{
}

/// A snapshot that is taken is what is shown from then on, with the highlight on one of its entries,
/// and where it was if that is one.
pub proof fn a_snapshot_is_shown_whole(
    state: FileSearchView,
    results: Seq<FileMatchView>,
    generation: int,
)
    requires
        0 <= state.selected,
    ensures
        state.taken(results, generation).results == results,
        state.taken(results, generation).context == state.context,
        state.taken(results, generation).min_generation == generation,
        results.len() > 0 ==> 0 <= state.taken(results, generation).selected < results.len(),
        state.selected < results.len() ==> state.taken(results, generation).selected
            == state.selected,
{
}

} // verus!
