//! Ranges walked value by value through the domain's successor.

use vstd::prelude::*;

use crate::domain::{First, Next, Step};
use crate::stepped::{RangeStep, StepState};

verus! {

/// What a range is: its cursor, its optional bound, and its flags.
pub struct RangeState<T> {
    pub from: T,
    pub to: Option<T>,
    pub inclusive: bool,
    pub done: bool,
}

impl<T: Next> RangeState<T> {
    /// A range at `v`, unbounded: what `from(v)` builds.
    pub open spec fn started_at(v: T) -> RangeState<T> {
        RangeState { from: v, to: None, inclusive: true, done: false }
    }

    /// The bound forbids emitting the cursor.
    pub open spec fn blocked(self) -> bool {
        match self.to {
            None => false,
            Some(t) => if self.inclusive {
                self.from.ord() > t.ord()
            } else {
                self.from.ord() >= t.ord()
            },
        }
    }

    /// Nothing more will be emitted.
    pub open spec fn halted(self) -> bool {
        self.done || self.blocked()
    }

    /// What one pull returns.
    pub open spec fn pulled(self) -> Option<T> {
        if self.halted() {
            None
        } else {
            Some(self.from)
        }
    }

    /// The state after one pull: the cursor moves to its successor, or the
    /// latch is set where it has none.
    pub open spec fn after(self) -> RangeState<T> {
        if self.halted() {
            self
        } else {
            match T::succ(self.from) {
                Some(v) => RangeState { from: v, ..self },
                None => RangeState { done: true, ..self },
            }
        }
    }

    /// The values that the first `n` pulls return, up to the first that
    /// returns none.
    pub open spec fn emitted(self, n: nat) -> Seq<T>
        decreases n,
    {
        if n == 0 || self.halted() {
            Seq::empty()
        } else {
            seq![self.from] + self.after().emitted((n - 1) as nat)
        }
    }
}

impl<T: Step<T>> RangeState<T> {
    /// The same range walked by `s`.
    pub open spec fn stepped(self, s: T) -> StepState<T> {
        StepState {
            from: self.from,
            to: self.to,
            step: s,
            inclusive: self.inclusive,
            reverse: s.ord() < 0,
            done: self.done,
        }
    }
}

/// A range started at `v` emits `v` as its first value, in every domain.
pub proof fn lemma_from_emits_start_first<T: Next>(v: T)
    ensures
        RangeState::started_at(v).emitted(1) == seq![v],
{
    let r = RangeState::started_at(v);
    assert(r.after().emitted(0) =~= Seq::empty());
    assert(r.emitted(1) =~= seq![v]);
}

/// Giving a range the same step a second time changes nothing: the range is
/// the one the first call gave, and it emits the same values.
pub proof fn lemma_step_twice<T: Step<T>>(r: RangeState<T>, q: StepState<T>, s: T)
    ensures
        r.stepped(s).with_step(s) == r.stepped(s),
        q.with_step(s).with_step(s) == q.with_step(s),
        forall|n: nat| #[trigger] r.stepped(s).with_step(s).emitted(n) == r.stepped(s).emitted(n),
        forall|n: nat| #[trigger] q.with_step(s).with_step(s).emitted(n) == q.with_step(s).emitted(n),
{
}

/// A range walked through the successor of each value.
pub struct Range<T> {
    from: T,
    to: Option<T>,
    done: bool,
    inclusive: bool,
}

impl<T> View for Range<T> {
    type V = RangeState<T>;

    closed spec fn view(&self) -> RangeState<T> {
        RangeState { from: self.from, to: self.to, inclusive: self.inclusive, done: self.done }
    }
}

/// A range from the domain's zero, unbounded.
pub fn range<T: First>() -> (r: Range<T>)
    ensures
        r@.from.ord() == 0,
        r@.to is None,
        r@.inclusive,
        !r@.done,
{
    Range { from: T::first(), to: None, inclusive: true, done: false }
}

/// A range from `v`, unbounded.
pub fn from<T: Next>(v: T) -> (r: Range<T>)
    ensures
        r@ == RangeState::started_at(v),
{
    Range { from: v, to: None, inclusive: true, done: false }
}

/// A range from the domain's zero to `v`, inclusive.
pub fn to<T: First>(v: T) -> (r: Range<T>)
    ensures
        r@.from.ord() == 0,
        r@.to == Some(v),
        r@.inclusive,
        !r@.done,
{
    Range { from: T::first(), to: Some(v), inclusive: true, done: false }
}

/// A range from the domain's zero up to `v`, exclusive.
pub fn until<T: First>(v: T) -> (r: Range<T>)
    ensures
        r@.from.ord() == 0,
        r@.to == Some(v),
        !r@.inclusive,
        !r@.done,
{
    Range { from: T::first(), to: Some(v), inclusive: false, done: false }
}

impl<T: Next> Range<T> {
    /// Emits the cursor and moves it to its successor, unless the latch is set
    /// or the bound forbids the cursor.
    pub fn next(&mut self) -> (r: Option<T>)
        ensures
            r == old(self)@.pulled(),
            final(self)@ == old(self)@.after(),
    {
        if self.done {
            return None;
        }
        if let Some(to) = self.to {
            let stop = if self.inclusive {
                T::precedes(to, self.from)
            } else {
                !T::precedes(self.from, to)
            };
            if stop {
                return None;
            }
        }
        let ret = self.from;
        match T::next(self.from) {
            Some(new) => self.from = new,
            None => self.done = true,
        }
        Some(ret)
    }

    /// The values of at most `n` pulls.
    pub fn take(self, n: usize) -> (r: Vec<T>)
        ensures
            r@ == self@.emitted(n as nat),
    {
        let mut it = self;
        let mut out: Vec<T> = Vec::new();
        let mut i: usize = 0;
        while i < n
            invariant
                i <= n,
                out@ + it@.emitted((n - i) as nat) == self@.emitted(n as nat),
            decreases n - i,
        {
            let ghost before = it@;
            match it.next() {
                Some(v) => {
                    assert(out@.push(v) + it@.emitted((n - i - 1) as nat) =~= out@
                        + before.emitted((n - i) as nat));
                    out.push(v);
                    i = i + 1;
                },
                None => {
                    assert(out@ =~= out@ + before.emitted((n - i) as nat));
                    i = n;
                },
            }
        }
        assert(out@ =~= out@ + it@.emitted(0));
        out
    }

    /// Every value the range emits, up to the most that a `Vec` can index.
    pub fn collect(self) -> (r: Vec<T>)
        ensures
            r@ == self@.emitted(usize::MAX as nat),
    {
        self.take(usize::MAX)
    }

    /// The same range with its cursor at `from`.
    pub fn from(self, from: T) -> (r: Range<T>)
        ensures
            r@ == (RangeState { from: from, ..self@ }),
    {
        Range { from: from, ..self }
    }

    /// The same range, bounded at `to` inclusively.
    pub fn to(self, to: T) -> (r: Range<T>)
        ensures
            r@ == (RangeState { to: Some(to), inclusive: true, ..self@ }),
    {
        Range { to: Some(to), inclusive: true, ..self }
    }

    /// The same range, bounded at `to` exclusively.
    pub fn until(self, to: T) -> (r: Range<T>)
        ensures
            r@ == (RangeState { to: Some(to), inclusive: false, ..self@ }),
    {
        Range { to: Some(to), inclusive: false, ..self }
    }
}

impl<T: Step<T>> Range<T> {
    /// The same range walked by `s`, downwards where `s` is negative.
    pub fn step(self, s: T) -> (r: RangeStep<T>)
        ensures
            r@ == self@.stepped(s),
            r@.wf(),
    {
        RangeStep::walk(self.from, self.to, s, self.inclusive, self.done)
    }
}

} // verus!
