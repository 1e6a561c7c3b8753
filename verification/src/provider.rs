//! What a provider serves, and how its calls fail.

use vstd::prelude::*;
use crate::picker::Choice;
use crate::protocol::ReasoningEffort;
use crate::text;
use crate::text::opt;

verus! {

/// A model that a provider serves.
#[derive(Clone, Debug, PartialEq, Eq)]
pub struct ModelInfo {
    pub id: String,
    pub display_name: String,
    pub description: Option<String>,
    pub context_window: Option<u64>,
    pub max_output_tokens: Option<u64>,
    pub supports_vision: bool,
    /// The levels the model takes; empty where the vendor published no ladder.
    pub reasoning_efforts: Vec<ReasoningEffort>,
}

/// What a [`ModelInfo`] says.
pub struct ModelView {
    pub id: Seq<char>,
    pub display_name: Seq<char>,
    pub description: Option<Seq<char>>,
    pub context_window: Option<u64>,
    pub max_output_tokens: Option<u64>,
    pub supports_vision: bool,
    pub reasoning_efforts: Seq<ReasoningEffort>,
}

impl View for ModelInfo {
    type V = ModelView;

    open spec fn view(&self) -> ModelView {
        ModelView {
            id: self.id@,
            display_name: self.display_name@,
            description: opt(self.description),
            context_window: self.context_window,
            max_output_tokens: self.max_output_tokens,
            supports_vision: self.supports_vision,
            reasoning_efforts: self.reasoning_efforts@,
        }
    }
}

/// What some models say.
pub open spec fn model_views(models: Seq<ModelInfo>) -> Seq<ModelView> {
    models.map_values(|m: ModelInfo| m@)
}

/// A model of which only the id is known.
pub open spec fn bare_model(id: Seq<char>) -> ModelView {
    ModelView {
        id,
        display_name: id,
        description: None,
        context_window: None,
        max_output_tokens: None,
        supports_vision: false,
        reasoning_efforts: Seq::empty(),
    }
}

impl ModelInfo {
    /// A model of which only the id is known: it is shown by it.
    pub fn new(id: &str) -> (r: ModelInfo)
        ensures
            r@ == bare_model(id@),
    {
        let r = ModelInfo {
            id: text::copy(id),
            display_name: text::copy(id),
            description: None,
            context_window: None,
            max_output_tokens: None,
            supports_vision: false,
            reasoning_efforts: Vec::new(),
        };
        assert(r.reasoning_efforts@ =~= Seq::empty());
        r
    }
}

impl Choice for ModelInfo {
    open spec fn key_view(&self) -> Seq<char> {
        self.id@
    }

    open spec fn label_view(&self) -> Seq<char> {
        self.display_name@
    }

    fn key(&self) -> (r: &str) {
        self.id.as_str()
    }

    fn label(&self) -> (r: &str) {
        self.display_name.as_str()
    }
}

} // verus!
