//! The selection controller: which rows of a candidate list are on screen
//! (the scroll offset) and which visible row is pointed at (the pointer), as
//! the list and the viewport change from tick to tick.
use vstd::prelude::*;

verus! {

/// An input that moves or resets the selection.
#[derive(Clone, Copy, Debug, PartialEq, Eq, Structural)]
pub enum Intent {
    /// One row down (arrow key or wheel).
    MoveDown,
    /// One row up (arrow key or wheel).
    MoveUp,
    /// Back to the top of the list.
    ResetScroll,
    /// The query text changed, so the list is a new one: back to the top.
    QueryChanged,
    /// No movement: only bring the selection within the current list and
    /// viewport (after a resize, or when the list shrank).
    Refit,
}

/// Scroll offset and pointer; the selected row is
/// `scroll_offset + pointer`.
#[derive(Clone, Copy, Debug, PartialEq, Eq, Structural)]
pub struct Selection {
    pub scroll_offset: usize,
    pub pointer: usize,
}

/// One tick of input: an intent, with the list length and viewport capacity
/// of that tick.
#[derive(Clone, Copy, Debug, PartialEq, Eq, Structural)]
pub struct Tick {
    pub intent: Intent,
    pub total: usize,
    pub capacity: usize,
}

/// The rows a viewport of `capacity` shows: a viewport always has room for
/// the pointed row.
pub open spec fn window(capacity: nat) -> nat {
    if capacity == 0 {
        1
    } else {
        capacity
    }
}

/// The largest scroll offset at which the viewport is still full.
pub open spec fn max_scroll(total: nat, capacity: nat) -> nat {
    if total > window(capacity) {
        (total - window(capacity)) as nat
    } else {
        0
    }
}

/// How many rows are visible from scroll offset `scroll`.
pub open spec fn visible(total: nat, capacity: nat, scroll: nat) -> nat {
    if total <= scroll {
        0
    } else if total - scroll < window(capacity) {
        (total - scroll) as nat
    } else {
        window(capacity)
    }
}

/// The selection invariant: with an empty list both fields are 0; otherwise
/// the scroll offset is at most the largest one and the pointer is on a
/// visible row.
pub open spec fn is_valid(s: Selection, total: nat, capacity: nat) -> bool {
    if total == 0 {
        s.scroll_offset == 0 && s.pointer == 0
    } else {
        s.scroll_offset <= max_scroll(total, capacity) && s.pointer < visible(
            total,
            capacity,
            s.scroll_offset as nat,
        )
    }
}

/// `s` brought within a list of `total` rows and a viewport of `capacity`:
/// each field lowered to its largest valid value where it is above it.
pub open spec fn fit(s: Selection, total: nat, capacity: nat) -> Selection {
    let scroll = if s.scroll_offset <= max_scroll(total, capacity) {
        s.scroll_offset as nat
    } else {
        max_scroll(total, capacity)
    };
    let rows = visible(total, capacity, scroll);
    let pointer = if total == 0 {
        0
    } else if s.pointer < rows {
        s.pointer as nat
    } else {
        (rows - 1) as nat
    };
    Selection { scroll_offset: scroll as usize, pointer: pointer as usize }
}

/// The selection after `intent`, on a list of `total` rows in a viewport of
/// `capacity`. Moving down scrolls while rows lie below the viewport, and
/// then moves the pointer until the last visible row; moving up scrolls back
/// while the list is scrolled, and then moves the pointer up to the first row.
pub open spec fn step(s: Selection, intent: Intent, total: nat, capacity: nat) -> Selection {
    let f = fit(s, total, capacity);
    match intent {
        Intent::MoveDown => if f.scroll_offset + window(capacity) < total {
            Selection { scroll_offset: (f.scroll_offset + 1) as usize, ..f }
        } else if f.pointer + 1 < visible(total, capacity, f.scroll_offset as nat) {
            Selection { pointer: (f.pointer + 1) as usize, ..f }
        } else {
            f
        },
        Intent::MoveUp => if f.scroll_offset > 0 {
            Selection { scroll_offset: (f.scroll_offset - 1) as usize, ..f }
        } else if f.pointer > 0 {
            Selection { pointer: (f.pointer - 1) as usize, ..f }
        } else {
            f
        },
        Intent::ResetScroll | Intent::QueryChanged => Selection { scroll_offset: 0, pointer: 0 },
        Intent::Refit => f,
    }
}

/// The selection after the ticks `ticks`, from `s`.
pub open spec fn run(s: Selection, ticks: Seq<Tick>) -> Selection
    decreases ticks.len(),
{
    if ticks.len() == 0 {
        s
    } else {
        let t = ticks.last();
        step(run(s, ticks.drop_last()), t.intent, t.total as nat, t.capacity as nat)
    }
}

proof fn lemma_step_valid(s: Selection, intent: Intent, total: nat, capacity: nat)
    ensures
        is_valid(fit(s, total, capacity), total, capacity),
        is_valid(step(s, intent, total, capacity), total, capacity),
{
}

/// Whatever ticks come, from whatever start, the selection afterwards is
/// valid for the last tick's list and viewport: the selected row
/// `scroll_offset + pointer` lies in `[0, total - 1]` when the list is not
/// empty, and both fields are 0 when it is.
pub proof fn lemma_selection_valid(s: Selection, ticks: Seq<Tick>)
    requires
        ticks.len() > 0,
    ensures
        is_valid(run(s, ticks), ticks.last().total as nat, ticks.last().capacity as nat),
        ticks.last().total > 0 ==> run(s, ticks).scroll_offset + run(s, ticks).pointer < ticks.last().total,
        ticks.last().total == 0 ==> run(s, ticks).scroll_offset == 0 && run(s, ticks).pointer == 0,
{
    let t = ticks.last();
    let prev = run(s, ticks.drop_last());
    lemma_step_valid(prev, t.intent, t.total as nat, t.capacity as nat);
}

impl Selection {
    /// The top of the list.
    pub fn new() -> (r: Self)
        ensures
            r == (Selection { scroll_offset: 0, pointer: 0 }),
    {
        Selection { scroll_offset: 0, pointer: 0 }
    }

    fn fitted(&self, total: usize, capacity: usize) -> (r: Selection)
        ensures
            r == fit(*self, total as nat, capacity as nat),
            is_valid(r, total as nat, capacity as nat),
    {
        let w: usize = if capacity == 0 { 1 } else { capacity };
        let max: usize = if total > w { total - w } else { 0 };
        let scroll = if self.scroll_offset <= max { self.scroll_offset } else { max };
        let rows: usize = if total <= scroll { 0 } else if total - scroll < w { total - scroll } else { w };
        let pointer = if total == 0 { 0 } else if self.pointer < rows { self.pointer } else { rows - 1 };
        Selection { scroll_offset: scroll, pointer }
    }

    /// Applies `intent` on a list of `total` rows shown in a viewport of
    /// `capacity` rows.
    pub fn apply(&mut self, intent: Intent, total: usize, capacity: usize)
        ensures
            *final(self) == step(*old(self), intent, total as nat, capacity as nat),
            is_valid(*final(self), total as nat, capacity as nat),
    {
        let f = self.fitted(total, capacity);
        let w: usize = if capacity == 0 { 1 } else { capacity };
        let rows: usize = if total - f.scroll_offset < w { total - f.scroll_offset } else { w };
        *self = match intent {
            Intent::MoveDown => if total > w && f.scroll_offset < total - w {
                Selection { scroll_offset: f.scroll_offset + 1, ..f }
            } else if f.pointer + 1 < rows {
                Selection { pointer: f.pointer + 1, ..f }
            } else {
                f
            },
            Intent::MoveUp => if f.scroll_offset > 0 {
                Selection { scroll_offset: f.scroll_offset - 1, ..f }
            } else if f.pointer > 0 {
                Selection { pointer: f.pointer - 1, ..f }
            } else {
                f
            },
            Intent::ResetScroll | Intent::QueryChanged => Selection { scroll_offset: 0, pointer: 0 },
            Intent::Refit => f,
        };
        proof {
            lemma_step_valid(*old(self), intent, total as nat, capacity as nat);
        }
    }

    /// The selected row of a list of `total` rows in a viewport of
    /// `capacity` rows; `None` for an empty list.
    pub fn selected(&self, total: usize, capacity: usize) -> (r: Option<usize>)
        ensures
            r == if total == 0 {
                None
            } else {
                Some((fit(*self, total as nat, capacity as nat).scroll_offset + fit(
                    *self,
                    total as nat,
                    capacity as nat,
                ).pointer) as usize)
            },
            r matches Some(i) ==> i < total,
    {
        let f = self.fitted(total, capacity);
        if total == 0 {
            None
        } else {
            Some(f.scroll_offset + f.pointer)
        }
    }

    /// The rows on screen, as a start index and a count.
    pub fn visible_rows(&self, total: usize, capacity: usize) -> (r: (usize, usize))
        ensures
            r.0 == fit(*self, total as nat, capacity as nat).scroll_offset,
            r.1 == visible(total as nat, capacity as nat, r.0 as nat),
            r.0 + r.1 <= total,
    {
        let f = self.fitted(total, capacity);
        let w: usize = if capacity == 0 { 1 } else { capacity };
        let rows: usize = if total <= f.scroll_offset { 0 } else if total - f.scroll_offset < w {
            total - f.scroll_offset
        } else {
            w
        };
        (f.scroll_offset, rows)
    }
}

} // verus!
