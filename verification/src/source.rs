use vstd::prelude::*;
use crate::scalar::{constant, fixed_constants, Scalar};

verus! {

/// A supplier of random numbers: "give me a value between `low` and `high`".
///
/// A network borrows a source while it is built and never owns or seeds it.
pub trait Source<T>: Sized {
    /// Whether a draw between `low` and `high`, made in state `self`, may
    /// hand out `value` and leave the source in state `next`.
    ///
    /// A source that says nothing here promises nothing: any value may come.
    /// A repeatable source describes itself here, and the library's contracts
    /// then tell which drawn value went where.
    open spec fn yields(self, low: T, high: T, value: T, next: Self) -> bool {
        true
    }

    /// Draws one value between `low` and `high`, both included.
    fn sample(&mut self, low: T, high: T) -> (value: T)
        ensures
            old(self).yields(low, high, value, *final(self)),
    ;
}

/// One draw from the range `[-1, 1]` takes the source from `before` to
/// `after` and hands out `value`.
pub open spec fn draws<T: Scalar, S: Source<T>>(before: S, value: T, after: S) -> bool {
    exists|low: T, high: T|
        constant(-1i8, low) && constant(1i8, high) && #[trigger] before.yields(
            low,
            high,
            value,
            after,
        )
}

/// Consecutive draws from `[-1, 1]` take the source from `before` to `after`
/// and hand out `values`, first to last, and nothing else.
pub open spec fn emits<T: Scalar, S: Source<T>>(before: S, values: Seq<T>, after: S) -> bool
    decreases values.len(),
{
    if values.len() == 0 {
        before == after
    } else {
        exists|mid: S|
            #![trigger draws(mid, values.last(), after)]
            emits(before, values.drop_last(), mid) && draws(mid, values.last(), after)
    }
}

/// A source that hands out the same value for the same state and range, and
/// moves to the same next state.
pub open spec fn repeatable<T, S: Source<T>>() -> bool {
    forall|state: S, low: T, high: T, v1: T, n1: S, v2: T, n2: S|
        #![trigger state.yields(low, high, v1, n1), state.yields(low, high, v2, n2)]
        state.yields(low, high, v1, n1) && state.yields(low, high, v2, n2) ==> v1 == v2 && n1
            == n2
}

/// Draws after draws are draws: runs of a source join end to end.
pub proof fn lemma_emits_joined<T: Scalar, S: Source<T>>(
    before: S,
    first: Seq<T>,
    mid: S,
    second: Seq<T>,
    after: S,
)
    requires
        emits(before, first, mid),
        emits(mid, second, after),
    ensures
        emits(before, first + second, after),
    decreases second.len(),
{
    if second.len() == 0 {
        assert(first + second =~= first);
    } else {
        let inner = choose|inner: S|
            #![trigger draws(inner, second.last(), after)]
            emits(mid, second.drop_last(), inner) && draws(inner, second.last(), after);
        lemma_emits_joined(before, first, mid, second.drop_last(), inner);
        assert((first + second).drop_last() =~= first + second.drop_last());
        assert((first + second).last() == second.last());
    }
}

/// A single draw is a run of length one.
pub proof fn lemma_emits_one<T: Scalar, S: Source<T>>(before: S, value: T, after: S)
    requires
        draws(before, value, after),
    ensures
        emits(before, seq![value], after),
{
    let run = seq![value];
    assert(run.drop_last() =~= Seq::<T>::empty());
    assert(emits(before, run.drop_last(), before));
    assert(draws(before, run.last(), after));
}

/// Two runs of equal length from the same state of a repeatable source hand
/// out the same values and end in the same state, provided the ends of the
/// range are the same scalars each time they are asked for.
pub proof fn lemma_emits_repeatable<T: Scalar, S: Source<T>>(
    before: S,
    first: Seq<T>,
    first_after: S,
    second: Seq<T>,
    second_after: S,
)
    requires
        repeatable::<T, S>(),
        fixed_constants::<T>(),
        emits(before, first, first_after),
        emits(before, second, second_after),
        first.len() == second.len(),
    ensures
        first == second,
        first_after == second_after,
    decreases first.len(),
{
    if first.len() == 0 {
        assert(first =~= second);
    } else {
        let m1 = choose|mid: S|
            #![trigger draws(mid, first.last(), first_after)]
            emits(before, first.drop_last(), mid) && draws(mid, first.last(), first_after);
        let m2 = choose|mid: S|
            #![trigger draws(mid, second.last(), second_after)]
            emits(before, second.drop_last(), mid) && draws(mid, second.last(), second_after);
        lemma_emits_repeatable(before, first.drop_last(), m1, second.drop_last(), m2);
        assert(first =~= first.drop_last().push(first.last()));
        assert(second =~= second.drop_last().push(second.last()));
    }
}

/// A source that replays recorded values in order, starting over after the
/// last, whatever range is asked for. With nothing recorded it hands out
/// the lower end of the range.
#[derive(Debug)]
pub struct Replay<T> {
    values: Vec<T>,
    cursor: usize,
}

impl<T: Copy> Replay<T> {
    /// The recorded values.
    pub closed spec fn recorded(self) -> Seq<T> {
        self.values@
    }

    /// The index of the value that comes next.
    pub closed spec fn position(self) -> nat {
        self.cursor as nat
    }

    /// The value that the next draw hands out.
    pub closed spec fn upcoming(self, low: T) -> T {
        if self.cursor < self.values@.len() {
            self.values@[self.cursor as int]
        } else {
            low
        }
    }

    /// The source after one draw.
    pub closed spec fn advanced(self) -> Self {
        if self.cursor < self.values@.len() {
            Replay {
                values: self.values,
                cursor: if self.cursor + 1 == self.values@.len() {
                    0
                } else {
                    (self.cursor + 1) as usize
                },
            }
        } else {
            self
        }
    }

    /// A source that starts at the first of `values`.
    pub fn new(values: Vec<T>) -> (r: Self)
        ensures
            r.recorded() == values@,
            r.position() == 0,
    {
        Replay { values, cursor: 0 }
    }

    /// What one draw does: while there is a recorded value at the current
    /// position, it hands that value out and moves on by one, back to the
    /// start after the last value; otherwise it hands out `low` and stays.
    pub proof fn lemma_step(self, low: T)
        ensures
            self.position() < self.recorded().len() ==> {
                &&& self.upcoming(low) == self.recorded()[self.position() as int]
                &&& self.advanced().recorded() == self.recorded()
                &&& self.advanced().position() == if self.position() + 1
                    == self.recorded().len() {
                    0
                } else {
                    self.position() + 1
                }
            },
            self.position() >= self.recorded().len() ==> {
                &&& self.upcoming(low) == low
                &&& self.advanced() == self
            },
    {
        assert(self.values@.len() == self.values.len());
    }
}

impl<T: Copy> Source<T> for Replay<T> {
    open spec fn yields(self, low: T, high: T, value: T, next: Self) -> bool {
        value == self.upcoming(low) && next == self.advanced()
    }

    fn sample(&mut self, low: T, high: T) -> (value: T) {
        if self.cursor < self.values.len() {
            let value = self.values[self.cursor];
            self.cursor = if self.cursor + 1 == self.values.len() {
                0
            } else {
                self.cursor + 1
            };
            value
        } else {
            low
        }
    }
}

/// A replay is repeatable: its state fixes every value it will hand out.
pub proof fn lemma_replay_repeatable<T: Copy>()
    ensures
        repeatable::<T, Replay<T>>(),
{
}

/// The position of a replay `steps` draws after `start`.
pub open spec fn wrapped<T: Copy>(start: Replay<T>, steps: int) -> int {
    (start.position() as int + steps) % (start.recorded().len() as int)
}

/// What a run of a replay hands out: the recorded values from the current
/// position on, starting over after the last; the run leaves the record as
/// it was and the position moved on by the number of values drawn.
pub proof fn lemma_replay_run<T: Scalar>(start: Replay<T>, values: Seq<T>, end: Replay<T>)
    requires
        start.position() < start.recorded().len(),
        emits(start, values, end),
    ensures
        end.recorded() == start.recorded(),
        end.position() == wrapped(start, values.len() as int),
        forall|k: int|
            0 <= k < values.len() ==> #[trigger] values[k] == start.recorded()[wrapped(start, k)],
    decreases values.len(),
{
    let len = start.recorded().len() as int;
    let from = start.position() as int;
    if values.len() == 0 {
        assert(from % len == from) by (nonlinear_arith)
            requires
                0 <= from < len,
        ;
    } else {
        let mid = choose|mid: Replay<T>|
            #![trigger draws(mid, values.last(), end)]
            emits(start, values.drop_last(), mid) && draws(mid, values.last(), end);
        lemma_replay_run(start, values.drop_last(), mid);
        let (low, high) = choose|low: T, high: T|
            constant(-1i8, low) && constant(1i8, high) && #[trigger] mid.yields(
                low,
                high,
                values.last(),
                end,
            );
        let done = values.len() - 1;
        assert(0 <= (from + done) % len < len) by (nonlinear_arith)
            requires
                0 < len,
        ;
        mid.lemma_step(low);
        assert((from + done + 1) % len == if (from + done) % len + 1 == len {
            0
        } else {
            (from + done) % len + 1
        }) by (nonlinear_arith)
            requires
                0 < len,
        ;
        assert forall|k: int| 0 <= k < values.len() implies #[trigger] values[k]
            == start.recorded()[wrapped(start, k)] by {
            if k < done {
                assert(values[k] == values.drop_last()[k]);
            }
        }
    }
}

} // verus!
