//! What was typed before, and where the arrow keys are within it.

use vstd::prelude::*;
use crate::text;
use crate::text::{opt, texts};

verus! {

/// Past prompts, oldest first, and a walk through them.
#[derive(Debug, PartialEq, Eq)]
pub struct PromptHistory {
    prompts: Vec<String>,
    at: Option<usize>,
    draft: String,
}

/// What a [`PromptHistory`] holds.
pub struct HistoryView {
    pub prompts: Seq<Seq<char>>,
    /// The prompt that is recalled, during a walk.
    pub at: Option<int>,
    /// What was being typed when the walk began.
    pub draft: Seq<char>,
}

impl View for PromptHistory {
    type V = HistoryView;

    closed spec fn view(&self) -> HistoryView {
        HistoryView {
            prompts: texts(self.prompts@),
            at: match self.at {
                Some(i) => Some(i as int),
                None => None,
            },
            draft: self.draft@,
        }
    }
}

impl HistoryView {
    /// Whether the walk is at a prompt that there is.
    pub open spec fn valid(self) -> bool {
        self.at is Some ==> 0 <= self.at->0 < self.prompts.len()
    }

    /// What a step toward older prompts gives, and where it leads. The oldest is the end of the
    /// road.
    pub open spec fn older(self, current: Seq<char>) -> (HistoryView, Option<Seq<char>>) {
        match self.at {
            None => if self.prompts.len() == 0 {
                (self, None)
            } else {
                (
                    HistoryView {
                        at: Some(self.prompts.len() - 1),
                        draft: current,
                        ..self
                    },
                    Some(self.prompts.last()),
                )
            },
            Some(i) => if i == 0 {
                (self, None)
            } else {
                (HistoryView { at: Some(i - 1), ..self }, Some(self.prompts[i - 1]))
            },
        }
    }

    /// What a step toward newer prompts gives, and where it leads: behind the newest is what was
    /// being typed.
    pub open spec fn newer(self) -> (HistoryView, Option<Seq<char>>) {
        match self.at {
            None => (self, None),
            Some(i) => if i + 1 < self.prompts.len() {
                (HistoryView { at: Some(i + 1), ..self }, Some(self.prompts[i + 1]))
            } else {
                (HistoryView { at: None, draft: Seq::empty(), ..self }, Some(self.draft))
            },
        }
    }

    /// With one more prompt, and no walk.
    pub open spec fn submitted(self, prompt: Seq<char>) -> HistoryView {
        HistoryView { prompts: self.prompts.push(prompt), at: None, draft: Seq::empty() }
    }
}

impl Default for PromptHistory {
    fn default() -> (r: PromptHistory)
        ensures
            r@ == (HistoryView { prompts: Seq::empty(), at: None, draft: Seq::empty() }),
            r@.valid(),
    {
        PromptHistory::new(text::no_texts())
    }
}

impl PromptHistory {
    #[verifier::type_invariant]
    closed spec fn walks_among_prompts(self) -> bool {
        self@.valid()
    }

    /// The history of these prompts, oldest first.
    pub fn new(prompts: Vec<String>) -> (r: PromptHistory)
        ensures
            r@ == (HistoryView { prompts: texts(prompts@), at: None, draft: Seq::empty() }),
            r@.valid(),
    {
        let r = PromptHistory { prompts, at: None, draft: String::new() };
        assert(r@.draft =~= Seq::empty());
        r
    }

    /// Steps toward older prompts: the one to show, if there is another.
    pub fn older(&mut self, current: &str) -> (r: Option<String>)
        ensures
            (final(self)@, opt(r)) == old(self)@.older(current@),
            final(self)@.valid(),
    {
        proof {
            use_type_invariant(&*self);
        }
        assert(self@.prompts.len() == self.prompts.len());
        match self.at {
            None => {
                if self.prompts.len() == 0 {
                    return None;
                }
                let i: usize = self.prompts.len() - 1;
                let prompt = self.prompts[i].clone();
                self.draft = text::copy(current);
                self.at = Some(i);
                assert(prompt@ == self@.prompts.last());
                Some(prompt)
            },
            Some(i) => {
                if i == 0 {
                    return None;
                }
                let prompt = self.prompts[i - 1].clone();
                self.at = Some(i - 1);
                assert(prompt@ == self@.prompts[i - 1]);
                Some(prompt)
            },
        }
    }

    /// Steps toward newer prompts: the one to show, or what was being typed.
    pub fn newer(&mut self) -> (r: Option<String>)
        ensures
            (final(self)@, opt(r)) == old(self)@.newer(),
            final(self)@.valid(),
    {
        proof {
            use_type_invariant(&*self);
        }
        assert(self@.prompts.len() == self.prompts.len());
        match self.at {
            None => None,
            Some(i) => {
                if i + 1 < self.prompts.len() {
                    let prompt = self.prompts[i + 1].clone();
                    self.at = Some(i + 1);
                    assert(prompt@ == self@.prompts[i + 1]);
                    Some(prompt)
                } else {
                    let draft = self.draft.clone();
                    self.at = None;
                    self.draft = String::new();
                    assert(self@.draft =~= Seq::empty());
                    Some(draft)
                }
            },
        }
    }

    /// A prompt was sent: it is the newest one now.
    pub fn submit(&mut self, prompt: &str)
        ensures
            final(self)@ == old(self)@.submitted(prompt@),
            final(self)@.valid(),
    {
        let mut before = PromptHistory::default();
        core::mem::swap(self, &mut before);
        let PromptHistory { mut prompts, .. } = before;
        prompts.push(text::copy(prompt));
        assert(texts(prompts@) =~= old(self)@.prompts.push(prompt@));
        *self = PromptHistory::new(prompts);
    }
}

/// Stepping back and forth again ends where it began: at the person's own unsent draft.
pub proof fn the_draft_comes_back(history: HistoryView, current: Seq<char>)
    requires
        history.at is None,
        history.prompts.len() > 0,
    ensures
        history.older(current).0.newer().1 == Some(current),
        history.older(current).0.newer().0.at is None,
        history.older(current).0.newer().0.prompts == history.prompts,
{
}

/// What was just sent is the first to be recalled.
pub proof fn what_was_sent_is_recalled_first(
    history: HistoryView,
    prompt: Seq<char>,
    current: Seq<char>,
)
    ensures
        history.submitted(prompt).older(current).1 == Some(prompt),
{
}

/// Stepping back goes through the prompts from the newest to the oldest and changes none of them;
/// what was being typed is kept on the first step.
pub proof fn older_prompts_are_recalled_in_turn(history: HistoryView, current: Seq<char>)
    requires
        history.valid(),
    ensures
        ({
            let (next, shown) = history.older(current);
            let from = match history.at {
                Some(i) => i,
                None => history.prompts.len() as int,
            };
            &&& next.prompts == history.prompts
            &&& shown is Some <==> from > 0
            &&& from > 0 ==> next.at == Some(from - 1) && shown == Some(history.prompts[from - 1])
            &&& from == 0 ==> next == history
            &&& from > 0 && history.at is None ==> next.draft == current
            &&& history.at is Some ==> next.draft == history.draft
        }),
        ({
            let (next, shown) = history.newer();
            &&& next.prompts == history.prompts
            &&& shown is Some <==> history.at is Some
            &&& history.at matches Some(i) ==> {
                &&& i + 1 < history.prompts.len() ==> next.at == Some(i + 1) && shown == Some(
                    history.prompts[i + 1],
                )
                &&& i + 1 == history.prompts.len() ==> next.at is None && shown == Some(
                    history.draft,
                )
            }
        }),
        history.submitted(current).prompts.drop_last() == history.prompts,
        history.submitted(current).prompts.last() == current,
{
    assert(history.submitted(current).prompts.drop_last() =~= history.prompts);
}

} // verus!
