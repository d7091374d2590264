//! Ranges walked by an explicit step, in either direction.

use vstd::arithmetic::div_mod::lemma_fundamental_div_mod;
use vstd::prelude::*;

use crate::domain::{First, Next, Step};

verus! {

/// What a stepped range is: its cursor, its optional bound, its step, and its
/// flags.
pub struct StepState<T> {
    pub from: T,
    pub to: Option<T>,
    pub step: T,
    pub inclusive: bool,
    pub reverse: bool,
    pub done: bool,
}

impl<T: Step<T>> StepState<T> {
    /// The direction flag agrees with the sign of the step.
    pub open spec fn wf(self) -> bool {
        self.reverse == (self.step.ord() < 0)
    }

    /// The same range walked by `s`, with its direction taken from the sign
    /// of `s`.
    pub open spec fn with_step(self, s: T) -> StepState<T> {
        StepState { step: s, reverse: s.ord() < 0, ..self }
    }

    /// The bound forbids emitting the cursor.
    pub open spec fn blocked(self) -> bool {
        match self.to {
            None => false,
            Some(t) => if self.reverse {
                if self.inclusive {
                    self.from.ord() < t.ord()
                } else {
                    self.from.ord() <= t.ord()
                }
            } else {
                if self.inclusive {
                    self.from.ord() > t.ord()
                } else {
                    self.from.ord() >= t.ord()
                }
            },
        }
    }

    /// Nothing more will be emitted.
    pub open spec fn halted(self) -> bool {
        self.done || self.blocked()
    }

    /// What one pull returns.
    pub open spec fn pulled(self) -> Option<T> {
        if self.halted() {
            None
        } else {
            Some(self.from)
        }
    }

    /// The state after one pull: the cursor moves by the step, or the latch is
    /// set where that move leaves the domain.
    pub open spec fn after(self) -> StepState<T> {
        if self.halted() {
            self
        } else {
            match T::offset(self.from, self.step) {
                Some(v) => StepState { from: v, ..self },
                None => StepState { done: true, ..self },
            }
        }
    }

    /// The values that the first `n` pulls return, up to the first that
    /// returns none.
    pub open spec fn emitted(self, n: nat) -> Seq<T>
        decreases n,
    {
        if n == 0 || self.halted() {
            Seq::empty()
        } else {
            seq![self.from] + self.after().emitted((n - 1) as nat)
        }
    }
}

/// Walking up from `c` by `c.step` to an inclusive bound `k` steps away
/// (with the bound below the `k + 1`-th step) emits `c.from + i * c.step` for
/// each `i` up to `k`, and nothing after.
proof fn lemma_ascending_run<T: Step<T>>(c: StepState<T>, k: nat, n: nat)
    requires
        c.wf(),
        !c.done,
        c.inclusive,
        c.to is Some,
        c.step.ord() > 0,
        c.from.ord() + k * c.step.ord() <= c.to->0.ord() < c.from.ord() + (k + 1) * c.step.ord(),
        n > k,
    ensures
        c.emitted(n).len() == k + 1,
        forall|i: int|
            0 <= i <= k ==> #[trigger] c.emitted(n)[i].ord() == c.from.ord() + i * c.step.ord(),
    decreases k,
{
    let f = c.from.ord();
    let s = c.step.ord();
    let t = c.to->0.ord();
    T::lemma_offset(c.from, c.step);
    T::lemma_bounds(c.from);
    T::lemma_bounds(c.to->0);
    assert(k * s >= 0) by (nonlinear_arith)
        requires
            s > 0,
    ;
    let d = c.after();
    if k == 0 {
        assert(f <= t < f + s) by (nonlinear_arith)
            requires
                k == 0,
                f + k * s <= t < f + (k + 1) * s,
        ;
        assert(!c.halted());
        match T::offset(c.from, c.step) {
            Some(v) => assert(d.blocked()),
            None => assert(d.done),
        }
        assert(d.halted());
        assert(d.emitted((n - 1) as nat) =~= Seq::empty());
        assert(c.emitted(n) =~= seq![c.from]);
        assert(0 * s == 0);
    } else {
        assert(f + s <= f + k * s) by (nonlinear_arith)
            requires
                s > 0,
                k >= 1,
        ;
        assert(d.from.ord() == f + s);
        assert(f + s + (k - 1) * s == f + k * s && f + s + k * s == f + (k + 1) * s)
            by (nonlinear_arith);
        lemma_ascending_run(d, (k - 1) as nat, (n - 1) as nat);
        assert forall|i: int| 0 <= i <= k implies #[trigger] c.emitted(n)[i].ord() == f + i * s by {
            if i > 0 {
                assert(c.emitted(n)[i] == d.emitted((n - 1) as nat)[i - 1]);
                assert(f + s + (i - 1) * s == f + i * s) by (nonlinear_arith);
            }
        }
    }
}

/// An ascending inclusive range that starts at or below its bound `to` emits
/// `from + i * step` for `i` from zero to `k = (to - from) / step`, and then
/// stops. So its last value is the largest at or below `to` that repeated
/// steps from `from` reach, and it is `to` itself exactly when the step
/// divides `to - from`.
pub proof fn lemma_ascending_inclusive_end<T: Step<T>>(c: StepState<T>)
    requires
        c.wf(),
        !c.done,
        c.inclusive,
        c.to is Some,
        c.step.ord() > 0,
        c.from.ord() <= c.to->0.ord(),
    ensures
        forall|n: nat|
            n > (c.to->0.ord() - c.from.ord()) / c.step.ord() ==> {
                let k = (c.to->0.ord() - c.from.ord()) / c.step.ord();
                let out = #[trigger] c.emitted(n);
                &&& out.len() == k + 1
                &&& forall|i: int|
                    0 <= i <= k ==> #[trigger] out[i].ord() == c.from.ord() + i * c.step.ord()
                &&& out.last().ord() <= c.to->0.ord() < out.last().ord() + c.step.ord()
                &&& (out.last() == c.to->0 <==> (c.to->0.ord() - c.from.ord()) % c.step.ord()
                    == 0)
            },
{
    let f = c.from.ord();
    let s = c.step.ord();
    let t = c.to->0.ord();
    let k = (t - f) / s;
    lemma_fundamental_div_mod(t - f, s);
    assert(0 <= (t - f) % s < s);
    assert(k >= 0) by (nonlinear_arith)
        requires
            t - f == s * k + (t - f) % s,
            0 <= (t - f) % s < s,
            t - f >= 0,
    ;
    assert(f + k * s <= t < f + (k + 1) * s) by (nonlinear_arith)
        requires
            t - f == s * k + (t - f) % s,
            0 <= (t - f) % s < s,
    ;
    assert forall|n: nat| n > k implies {
        let out = #[trigger] c.emitted(n);
        &&& out.len() == k + 1
        &&& forall|i: int| 0 <= i <= k ==> #[trigger] out[i].ord() == f + i * s
        &&& out.last().ord() <= t < out.last().ord() + s
        &&& (out.last() == c.to->0 <==> (t - f) % s == 0)
    } by {
        lemma_ascending_run(c, k as nat, n);
        let out = c.emitted(n);
        assert(out.last() == out[k]);
        assert(out[k].ord() == f + k * s);
        assert(f + (k + 1) * s == f + k * s + s) by (nonlinear_arith);
        T::lemma_ord_injective(out.last(), c.to->0);
    }
}

/// A range walked by an explicit step; a negative step walks downwards.
pub struct RangeStep<T> {
    from: T,
    to: Option<T>,
    step: T,
    done: bool,
    reverse: bool,
    inclusive: bool,
}

impl<T> View for RangeStep<T> {
    type V = StepState<T>;

    closed spec fn view(&self) -> StepState<T> {
        StepState {
            from: self.from,
            to: self.to,
            step: self.step,
            inclusive: self.inclusive,
            reverse: self.reverse,
            done: self.done,
        }
    }
}

/// A range from the domain's zero, unbounded, walked by `step`.
pub fn step<T: First + Step<T>>(s: T) -> (r: RangeStep<T>)
    ensures
        r@.from.ord() == 0,
        r@.to is None,
        r@.step == s,
        r@.inclusive,
        r@.reverse == (s.ord() < 0),
        !r@.done,
        r@.wf(),
{
    RangeStep {
        from: T::first(),
        to: None,
        step: s,
        inclusive: true,
        reverse: T::is_negative(s),
        done: false,
    }
}

impl<T: Step<T>> RangeStep<T> {
    /// A range at `from` walked by `s`, with its direction taken from the sign
    /// of `s`.
    pub(crate) fn walk(from: T, to: Option<T>, s: T, inclusive: bool, done: bool) -> (r: Self)
        ensures
            r@ == (StepState { from, to, step: s, inclusive, reverse: s.ord() < 0, done }),
    {
        RangeStep { from, to, step: s, inclusive, reverse: T::is_negative(s), done }
    }

    /// Emits the cursor and moves it by the step, unless the latch is set or
    /// the bound forbids the cursor.
    pub fn next(&mut self) -> (r: Option<T>)
        ensures
            r == old(self)@.pulled(),
            final(self)@ == old(self)@.after(),
    {
        if self.done {
            return None;
        }
        if let Some(to) = self.to {
            let stop = if self.reverse {
                if self.inclusive {
                    T::precedes(self.from, to)
                } else {
                    !T::precedes(to, self.from)
                }
            } else {
                if self.inclusive {
                    T::precedes(to, self.from)
                } else {
                    !T::precedes(self.from, to)
                }
            };
            if stop {
                return None;
            }
        }
        let ret = self.from;
        match T::step(self.from, self.step) {
            Some(new) => self.from = new,
            None => self.done = true,
        }
        Some(ret)
    }

    /// The values of at most `n` pulls.
    pub fn take(self, n: usize) -> (r: Vec<T>)
        ensures
            r@ == self@.emitted(n as nat),
    {
        let mut it = self;
        let mut out: Vec<T> = Vec::new();
        let mut i: usize = 0;
        while i < n
            invariant
                i <= n,
                out@ + it@.emitted((n - i) as nat) == self@.emitted(n as nat),
            decreases n - i,
        {
            let ghost before = it@;
            match it.next() {
                Some(v) => {
                    assert(out@.push(v) + it@.emitted((n - i - 1) as nat) =~= out@
                        + before.emitted((n - i) as nat));
                    out.push(v);
                    i = i + 1;
                },
                None => {
                    assert(out@ =~= out@ + before.emitted((n - i) as nat));
                    i = n;
                },
            }
        }
        assert(out@ =~= out@ + it@.emitted(0));
        out
    }

    /// Every value the range emits, up to the most that a `Vec` can index.
    pub fn collect(self) -> (r: Vec<T>)
        ensures
            r@ == self@.emitted(usize::MAX as nat),
    {
        self.take(usize::MAX)
    }

    /// The same range with its cursor at `from`.
    pub fn from(self, from: T) -> (r: RangeStep<T>)
        ensures
            r@ == (StepState { from: from, ..self@ }),
    {
        RangeStep { from: from, ..self }
    }

    /// The same range, bounded at `to` inclusively.
    pub fn to(self, to: T) -> (r: RangeStep<T>)
        ensures
            r@ == (StepState { to: Some(to), inclusive: true, ..self@ }),
    {
        RangeStep { to: Some(to), inclusive: true, ..self }
    }

    /// The same range, bounded at `to` exclusively.
    pub fn until(self, to: T) -> (r: RangeStep<T>)
        ensures
            r@ == (StepState { to: Some(to), inclusive: false, ..self@ }),
    {
        RangeStep { to: Some(to), inclusive: false, ..self }
    }

    /// The same range walked by `s`.
    pub fn step(self, s: T) -> (r: RangeStep<T>)
        ensures
            r@ == self@.with_step(s),
    {
        RangeStep { step: s, reverse: T::is_negative(s), ..self }
    }
}

} // verus!
