//! Where the view stands in the conversation.
//!
//! The view follows the tail until a person scrolls back. From then on it is pinned to the line
//! it shows first, so that output arriving below does not move what is being read; reaching the
//! bottom goes live again.

use vstd::prelude::*;

verus! {

/// Where the view stands, in wrapped lines.
#[derive(Clone, Copy, Debug, PartialEq, Eq, Structural)]
pub struct Scrollback {
    /// How many lines there are.
    pub total: usize,
    /// How many of them fit on screen.
    pub height: usize,
    /// The first line shown, while the view does not follow the tail.
    pub pinned: Option<usize>,
}

impl Scrollback {
    /// The first line shown when the last one is.
    pub open spec fn tail(self) -> int {
        if self.total > self.height {
            self.total - self.height
        } else {
            0
        }
    }

    /// The first line shown.
    pub open spec fn top(self) -> int {
        match self.pinned {
            Some(top) => if top < self.tail() {
                top as int
            } else {
                self.tail()
            },
            None => self.tail(),
        }
    }

    /// The view with `top` as the first line shown, following once that shows the last one.
    pub open spec fn at(self, top: int) -> Scrollback {
        Scrollback {
            pinned: if top >= self.tail() || self.tail() == 0 {
                None
            } else if top < 0 {
                Some(0)
            } else {
                Some(top as usize)
            },
            ..self
        }
    }

    /// How many lines a page moves: all that fit, and at least one.
    pub open spec fn page(self) -> int {
        if self.height > 0 {
            self.height as int
        } else {
            1
        }
    }
}

impl Default for Scrollback {
    fn default() -> (r: Scrollback)
        ensures
            r == (Scrollback { total: 0, height: 0, pinned: None }),
    {
        Scrollback { total: 0, height: 0, pinned: None }
    }
}

impl Scrollback {
    /// Told by a frame how many lines there are and how many fit. What is pinned stays pinned.
    pub fn measure(&mut self, total: usize, height: usize)
        ensures
            *final(self) == (Scrollback { total, height, ..*old(self) }),
    {
        self.total = total;
        self.height = height;
    }

    fn tail_line(&self) -> (r: usize)
        ensures
            r == self.tail(),
    {
        if self.total > self.height {
            self.total - self.height
        } else {
            0
        }
    }

    /// The first line shown.
    pub fn offset(&self) -> (r: usize)
        ensures
            r == self.top(),
    {
        let tail = self.tail_line();
        match self.pinned {
            Some(top) => if top < tail {
                top
            } else {
                tail
            },
            None => tail,
        }
    }

    /// The line the view is pinned to, while it does not follow the tail.
    pub fn pinned_top(&self) -> (r: Option<usize>)
        ensures
            r == self.pinned,
    {
        self.pinned
    }

    /// Whether new output moves the view.
    pub fn is_following(&self) -> (r: bool)
        ensures
            r == self.pinned is None,
    {
        self.pinned.is_none()
    }

    /// How many lines there are below what is shown.
    pub fn below(&self) -> (r: usize)
        ensures
            r == self.tail() - self.top(),
    {
        self.tail_line() - self.offset()
    }

    /// Goes live.
    pub fn follow(&mut self)
        ensures
            *final(self) == (Scrollback { pinned: None, ..*old(self) }),
    {
        self.pinned = None;
    }

    /// Moves the view back.
    pub fn scroll_up(&mut self, lines: usize)
        ensures
            *final(self) == old(self).at(old(self).top() - lines),
    {
        let top = self.offset();
        let tail = self.tail_line();
        let to: usize = if lines < top {
            top - lines
        } else {
            0
        };
        self.pinned = if to >= tail {
            None
        } else {
            Some(to)
        };
    }

    /// Moves the view forward, until it goes live.
    pub fn scroll_down(&mut self, lines: usize)
        ensures
            *final(self) == old(self).at(old(self).top() + lines),
    {
        let top = self.offset();
        let tail = self.tail_line();
        self.pinned = if lines >= tail - top {
            None
        } else {
            Some(top + lines)
        };
    }

    fn page_lines(&self) -> (r: usize)
        ensures
            r == self.page(),
    {
        if self.height > 0 {
            self.height
        } else {
            1
        }
    }

    /// Moves the view back by a page.
    pub fn page_up(&mut self)
        ensures
            *final(self) == old(self).at(old(self).top() - old(self).page()),
    {
        let lines = self.page_lines();
        self.scroll_up(lines);
    }

    /// Moves the view forward by a page.
    pub fn page_down(&mut self)
        ensures
            *final(self) == old(self).at(old(self).top() + old(self).page()),
    {
        let lines = self.page_lines();
        self.scroll_down(lines);
    }
}

/// Output that arrives below does not move a view that is pinned to what it shows.
pub proof fn output_does_not_move_a_pinned_view(view: Scrollback, total: usize)
    requires
        view.pinned is Some,
        view.pinned->0 <= view.tail(),
        view.total <= total,
    ensures
        (Scrollback { total, ..view }).top() == view.top(),
{
}

/// The view always ends within the conversation, and what is below it is what scrolling down
/// takes to go live.
pub proof fn scrolling_to_the_bottom_goes_live(view: Scrollback, lines: usize)
    requires
        lines >= view.tail() - view.top(),
    ensures
        view.at(view.top() + lines).pinned is None,
        view.at(view.top() + lines).top() == view.tail(),
{
}

/// A view that is moved shows the line it was moved to first, as far as the conversation goes, and
/// follows just where that shows the end.
pub proof fn a_move_goes_where_it_says(view: Scrollback, top: int)
    ensures
        view.at(top).total == view.total,
        view.at(top).height == view.height,
        0 <= top <= view.tail() ==> view.at(top).top() == top,
        top < 0 ==> view.at(top).top() == 0,
        top > view.tail() ==> view.at(top).top() == view.tail(),
        view.at(top).pinned is None <==> top >= view.tail() || view.tail() == 0,
        view.tail() + view.height >= view.total,
        view.total > view.height ==> view.tail() + view.height == view.total,
        0 <= view.top() <= view.tail(),
{
}

} // verus!
