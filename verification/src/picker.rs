//! The overlay a person chooses a model or a provider in.
//!
//! A name typed in full is an instruction, not a question. The overlay is for the other case,
//! where the person is asking what there is: filtering, clamping, and what enter and esc mean
//! are answers about the question, and the same for every list.

use vstd::prelude::*;
use crate::text;
use crate::text::{ascii_lower, occurs, trimmed};

verus! {

/// The lower-case form of a text, by Unicode's mapping.
pub uninterp spec fn lowered(s: Seq<char>) -> Seq<char>;

/// `str::to_lowercase`. The mapping is Unicode's; of ASCII text it is claimed that each of
/// the letters A to Z becomes its lower-case form and every other character stays.
#[verifier::external_body]
pub(crate) fn lowercase(s: &str) -> (r: String)
    ensures
        r@ == lowered(s@),
        (forall|i: int| 0 <= i < s@.len() ==> #[trigger] s@[i] <= '\u{7f}') ==> r@
            == s@.map_values(|c: char| ascii_lower(c)),
{
    s.to_lowercase()
}

/// Something the overlay can list.
///
/// Two names, because a person must be able to type what they read on screen, while what
/// actually gets switched to is the key: the model id, the provider route.
pub trait Choice {
    /// What gets switched to.
    spec fn key_view(&self) -> Seq<char>;

    /// What a person reads.
    spec fn label_view(&self) -> Seq<char>;

    fn key(&self) -> (r: &str)
        ensures
            r@ == self.key_view(),
    ;

    fn label(&self) -> (r: &str)
        ensures
            r@ == self.label_view(),
    ;
}

/// One provider instance a session could be pointed at.
///
/// A route rather than a vendor: two routes can be the same vendor reached two different ways,
/// and choosing between them is exactly what this list is for.
#[derive(Clone, Debug, PartialEq, Eq)]
pub struct ProviderChoice {
    /// The registry key, which is what configuration and `/provider <name>` say.
    pub route: String,
    pub display_name: String,
}

/// What a [`ProviderChoice`] says.
pub struct RouteView {
    pub route: Seq<char>,
    pub display_name: Seq<char>,
}

impl View for ProviderChoice {
    type V = RouteView;

    open spec fn view(&self) -> RouteView {
        RouteView { route: self.route@, display_name: self.display_name@ }
    }
}

/// What some routes say.
pub open spec fn route_views(routes: Seq<ProviderChoice>) -> Seq<RouteView> {
    routes.map_values(|r: ProviderChoice| r@)
}

impl Choice for ProviderChoice {
    open spec fn key_view(&self) -> Seq<char> {
        self.route@
    }

    open spec fn label_view(&self) -> Seq<char> {
        self.display_name@
    }

    fn key(&self) -> (r: &str) {
        self.route.as_str()
    }

    fn label(&self) -> (r: &str) {
        self.display_name.as_str()
    }
}

/// Which list the open overlay is showing. Held on the picker rather than beside it so there
/// is no way to be open on one list and reading the other.
#[derive(Clone, Copy, Debug, PartialEq, Eq, Structural)]
pub enum PickerKind {
    Model,
    Provider,
    Mcp,
    Policy,
}

/// Which row is highlighted, and what has been typed to narrow the list.
#[derive(Debug, PartialEq, Eq)]
pub struct Picker {
    kind: PickerKind,
    /// Substring typed to filter, matched against both key and label.
    query: String,
    /// An index into the *filtered* list, clamped by [`Picker::selected`] rather than reset,
    /// so one more letter does not throw the highlight back to the top of a list somebody is
    /// moving through.
    selected: usize,
}

/// What a [`Picker`] holds.
pub struct PickerView {
    pub kind: PickerKind,
    pub query: Seq<char>,
    pub selected: nat,
}

impl View for Picker {
    type V = PickerView;

    closed spec fn view(&self) -> PickerView {
        PickerView { kind: self.kind, query: self.query@, selected: self.selected as nat }
    }
}

/// Which of `count` rows is highlighted.
pub open spec fn clamped(selected: nat, count: nat) -> nat {
    if count == 0 {
        0
    } else if selected < count {
        selected
    } else {
        (count - 1) as nat
    }
}

/// Whether a choice survives a filter.
pub open spec fn survives(query: Seq<char>, key: Seq<char>, label: Seq<char>) -> bool {
    let wanted = lowered(trimmed(query));
    wanted.len() == 0 || occurs(lowered(key), wanted) || occurs(lowered(label), wanted)
}

impl Picker {
    /// An overlay on this list, nothing typed and the first row highlighted.
    pub fn new(kind: PickerKind) -> (r: Picker)
        ensures
            r@ == (PickerView { kind, query: Seq::empty(), selected: 0 }),
    {
        let query = String::new();
        assert(query@ =~= Seq::<char>::empty());
        Picker { kind, query, selected: 0 }
    }

    /// An overlay on this list, nothing typed and the row `selected` highlighted.
    pub fn at(kind: PickerKind, selected: usize) -> (r: Picker)
        ensures
            r@ == (PickerView { kind, query: Seq::empty(), selected: selected as nat }),
    {
        let query = String::new();
        assert(query@ =~= Seq::<char>::empty());
        Picker { kind, query, selected }
    }

    pub fn kind(&self) -> (r: PickerKind)
        ensures
            r == self@.kind,
    {
        self.kind
    }

    pub fn query(&self) -> (r: &str)
        ensures
            r@ == self@.query,
    {
        self.query.as_str()
    }

    /// Which of `count` rows is highlighted, clamped to what is on screen.
    pub fn selected(&self, count: usize) -> (r: usize)
        ensures
            r == clamped(self@.selected, count as nat),
    {
        if count == 0 {
            0
        } else if self.selected < count {
            self.selected
        } else {
            count - 1
        }
    }

    /// Moves the highlight by `delta` rows of `count`, around the ends of the list.
    pub fn move_selection(&mut self, delta: isize, count: usize)
        ensures
            final(self)@.kind == old(self)@.kind,
            final(self)@.query == old(self)@.query,
            final(self)@.selected == (if count == 0 {
                old(self)@.selected as int
            } else {
                (clamped(old(self)@.selected, count as nat) + delta) % (count as int)
            }),
    {
        if count == 0 {
            return ;
        }
        let current: u128 = self.selected(count) as u128;
        let n: u128 = count as u128;
        if delta >= 0 {
            let step: u128 = delta as u128;
            self.selected = ((current + step) % n) as usize;
        } else {
            let size: i128 = -(delta as i128);
            let step: u128 = (size as u128) % n;
            proof {
                vstd::arithmetic::div_mod::lemma_mod_sub_multiples_vanish(
                    current as int + n as int - step as int,
                    n as int,
                );
                vstd::arithmetic::div_mod::lemma_sub_mod_noop(
                    current as int,
                    size as int,
                    n as int,
                );
                vstd::arithmetic::div_mod::lemma_sub_mod_noop(
                    current as int,
                    step as int,
                    n as int,
                );
                vstd::arithmetic::div_mod::lemma_mod_twice(size as int, n as int);
            }
            self.selected = ((current + n - step) % n) as usize;
        }
    }

    /// One more character to filter by.
    pub fn push(&mut self, ch: char)
        ensures
            final(self)@ == (PickerView { query: old(self)@.query.push(ch), ..old(self)@ }),
    {
        self.query.push(ch);
    }

    /// One character less to filter by.
    pub fn backspace(&mut self)
        ensures
            final(self)@ == (PickerView {
                query: if old(self)@.query.len() > 0 {
                    old(self)@.query.drop_last()
                } else {
                    old(self)@.query
                },
                ..old(self)@
            }),
    {
        let v = text::to_chars(self.query.as_str());
        if v.len() > 0 {
            self.query = text::from_chars(&v, 0, v.len() - 1);
            assert(v@.subrange(0, v.len() - 1) =~= v@.drop_last());
        }
    }

    /// Whether `choice` survives the filter. Case-insensitive over both the key and the
    /// label: a person reading a label on screen must be able to type what they read, not the
    /// id it happens to have.
    pub fn matches<C: Choice>(&self, choice: &C) -> (r: bool)
        ensures
            r == survives(self@.query, choice.key_view(), choice.label_view()),
    {
        let wanted = text::trim(self.query.as_str());
        let wanted = lowercase(wanted.as_str());
        self.keeps(wanted.as_str(), choice.key(), choice.label())
    }

    /// Whether a choice survives a filter that is already in lower case.
    fn keeps(&self, wanted: &str, key: &str, label: &str) -> (r: bool)
        ensures
            r == (wanted@.len() == 0 || occurs(lowered(key@), wanted@) || occurs(
                lowered(label@),
                wanted@,
            )),
    {
        if wanted.unicode_len() == 0 {
            return true;
        }
        let key = lowercase(key);
        if text::contains(key.as_str(), wanted) {
            return true;
        }
        let label = lowercase(label);
        text::contains(label.as_str(), wanted)
    }
}

/// The highlight is always on a row, where there is one.
pub proof fn the_highlight_is_on_a_row(selected: nat, count: nat)
    requires
        count > 0,
    ensures
        clamped(selected, count) < count,
{
}

/// A filter keeps what a person can see in it: a choice whose key or label holds what was typed,
/// anywhere and in whatever case, white space around it aside; and with nothing typed, all of them.
pub proof fn a_filter_keeps_what_was_typed(query: Seq<char>, key: Seq<char>, label: Seq<char>)
    ensures
        ({
            let wanted = lowered(trimmed(query));
            let held = |name: Seq<char>|
                exists|i: int|
                    0 <= i && i + wanted.len() <= lowered(name).len() && wanted
                        == #[trigger] lowered(name).subrange(i, i + wanted.len());
            survives(query, key, label) <==> (held(key) || held(label) || wanted.len() == 0)
        }),
        survives(query, key, label) == survives(query, label, key),
{
    let wanted = lowered(trimmed(query));
    assert forall|name: Seq<char>| #[trigger] occurs(lowered(name), wanted) == (exists|i: int|
        0 <= i && i + wanted.len() <= lowered(name).len() && wanted == #[trigger] lowered(
            name,
        ).subrange(i, i + wanted.len())) by {
        if occurs(lowered(name), wanted) {
            let i = choose|i: int| text::occurs_at(lowered(name), wanted, i);
            assert(lowered(name).subrange(i, i + wanted.len()) == wanted);
        }
        if exists|i: int|
            0 <= i && i + wanted.len() <= lowered(name).len() && wanted == #[trigger] lowered(
                name,
            ).subrange(i, i + wanted.len()) {
            let i = choose|i: int|
                0 <= i && i + wanted.len() <= lowered(name).len() && wanted == #[trigger] lowered(
                    name,
                ).subrange(i, i + wanted.len());
            assert(text::occurs_at(lowered(name), wanted, i));
        }
    }
    assert(occurs(lowered(key), wanted) == occurs(lowered(key), wanted));
    assert(occurs(lowered(label), wanted) == occurs(lowered(label), wanted));
}

/// The highlight stays where it is as long as there is a row, and is on the last one otherwise.
pub proof fn the_highlight_stays_on_its_row(selected: nat, count: nat)
    ensures
        selected < count ==> clamped(selected, count) == selected,
        0 < count <= selected ==> clamped(selected, count) + 1 == count,
{
}

} // verus!
