use vstd::prelude::*;
use crate::error::ContractViolation;
use crate::scalar::{adds, constant, exact, fixed_constants, multiplies, picks_larger, Scalar};
use crate::source::{
    draws,
    emits,
    lemma_emits_joined,
    lemma_emits_one,
    lemma_emits_repeatable,
    repeatable,
    Source,
};

verus! {

/// One neuron: a bias and one weight per input.
#[derive(Debug)]
pub struct Neuron<T> {
    pub bias: T,
    pub weights: Vec<T>,
}

/// What a neuron is, as a value.
pub ghost struct NeuronModel<T> {
    pub bias: T,
    pub weights: Seq<T>,
}

impl<T> NeuronModel<T> {
    /// The neuron's numbers in the order in which they are drawn: the bias,
    /// then the weights from the first to the last.
    pub open spec fn parameters(self) -> Seq<T> {
        seq![self.bias] + self.weights
    }
}

impl<T> View for Neuron<T> {
    type V = NeuronModel<T>;

    open spec fn view(&self) -> NeuronModel<T> {
        NeuronModel { bias: self.bias, weights: self.weights@ }
    }
}

/// The models of a row of neurons.
pub open spec fn neuron_models<T>(neurons: Seq<Neuron<T>>) -> Seq<NeuronModel<T>> {
    Seq::new(neurons.len(), |j: int| neurons[j]@)
}

/// `total` is the weighted sum of the first `count` inputs, accumulated from
/// zero in increasing index order: each step multiplies an input by its
/// weight and adds the product to the running total.
pub open spec fn accumulates<T: Scalar>(
    inputs: Seq<T>,
    weights: Seq<T>,
    count: nat,
    total: T,
) -> bool
    decreases count,
{
    if count == 0 {
        constant(0i8, total)
    } else {
        exists|earlier: T, term: T|
            #![trigger adds(earlier, term, total)]
            accumulates(inputs, weights, (count - 1) as nat, earlier) && multiplies(
                inputs[count - 1],
                weights[count - 1],
                term,
            ) && adds(earlier, term, total)
    }
}

/// `output` is what the neuron answers to `inputs`: the weighted sum of all
/// inputs, added to the bias, and then the larger of that and zero.
pub open spec fn fires<T: Scalar>(neuron: NeuronModel<T>, inputs: Seq<T>, output: T) -> bool {
    exists|total: T, raised: T, floor: T|
        #![trigger adds(neuron.bias, total, raised), picks_larger(raised, floor, output)]
        accumulates(inputs, neuron.weights, inputs.len(), total) && adds(
            neuron.bias,
            total,
            raised,
        ) && constant(0i8, floor) && picks_larger(raised, floor, output)
}

/// Draws one value from the range `[-1, 1]`.
pub(crate) fn draw<T: Scalar, S: Source<T>>(source: &mut S) -> (value: T)
    ensures
        draws(*old(source), value, *final(source)),
{
    let low = T::from_int(-1);
    let high = T::from_int(1);
    source.sample(low, high)
}

impl<T: Scalar> Neuron<T> {
    /// A neuron for `input_width` inputs with random bias and weights.
    ///
    /// The bias is drawn first, then the weights from the first to the last,
    /// each from the range `[-1, 1]`; nothing else is drawn.
    pub fn random<S: Source<T>>(source: &mut S, input_width: usize) -> (r: Self)
        ensures
            r@.weights.len() == input_width,
            emits(*old(source), r@.parameters(), *final(source)),
    {
        let bias = draw(source);
        let mut weights: Vec<T> = Vec::new();
        proof {
            lemma_emits_one(*old(source), bias, *source);
            assert(seq![bias] + weights@ =~= seq![bias]);
        }
        let mut i: usize = 0;
        while i < input_width
            invariant
                i <= input_width,
                weights@.len() == i,
                emits(*old(source), seq![bias] + weights@, *source),
            decreases input_width - i,
        {
            let ghost before = *source;
            let ghost earlier = weights@;
            let weight = draw(source);
            weights.push(weight);
            proof {
                lemma_emits_one(before, weight, *source);
                lemma_emits_joined(
                    *old(source),
                    seq![bias] + earlier,
                    before,
                    seq![weight],
                    *source,
                );
                assert((seq![bias] + earlier) + seq![weight] =~= seq![bias] + weights@);
            }
            i += 1;
        }
        Neuron { bias, weights }
    }

    /// The neuron's answer to `inputs`: the weighted sum of the inputs plus
    /// the bias, or zero where that is below zero.
    ///
    /// There must be as many inputs as weights; otherwise nothing is
    /// computed and the call fails.
    pub fn propagate(&self, inputs: &[T]) -> (r: Result<T, ContractViolation>)
        ensures
            match r {
                Ok(output) => inputs@.len() == self@.weights.len() && fires(
                    self@,
                    inputs@,
                    output,
                ),
                Err(violation) => inputs@.len() != self@.weights.len() && violation
                    == ContractViolation::InputWidthMismatch,
            },
    {
        if inputs.len() != self.weights.len() {
            return Err(ContractViolation::InputWidthMismatch);
        }
        let mut output = T::from_int(0);
        let mut i: usize = 0;
        while i < inputs.len()
            invariant
                i <= inputs@.len(),
                inputs@.len() == self.weights@.len(),
                accumulates(inputs@, self.weights@, i as nat, output),
            decreases inputs.len() - i,
        {
            let term = inputs[i].product(self.weights[i]);
            let ghost earlier = output;
            output = output.sum(term);
            i += 1;
            assert(multiplies(inputs@[i - 1], self.weights@[i - 1], term));
            assert(adds(earlier, term, output));
        }
        let raised = self.bias.sum(output);
        let floor = T::from_int(0);
        let answer = raised.larger(floor);
        assert(adds(self@.bias, output, raised));
        assert(picks_larger(raised, floor, answer));
        Ok(answer)
    }
}

/// The rectifier: whatever a neuron answers is the larger of some scalar and
/// zero.
pub proof fn lemma_output_floored<T: Scalar>(neuron: NeuronModel<T>, inputs: Seq<T>, output: T)
    requires
        fires(neuron, inputs, output),
    ensures
        exists|raised: T, floor: T|
            constant(0i8, floor) && #[trigger] picks_larger(raised, floor, output),
{
    let (total, raised, floor) = choose|total: T, raised: T, floor: T|
        #![trigger adds(neuron.bias, total, raised), picks_larger(raised, floor, output)]
        accumulates(inputs, neuron.weights, inputs.len(), total) && adds(
            neuron.bias,
            total,
            raised,
        ) && constant(0i8, floor) && picks_larger(raised, floor, output);
    assert(constant(0i8, floor) && picks_larger(raised, floor, output));
}

/// With exact arithmetic the weighted sum is one value.
pub proof fn lemma_accumulates_exact<T: Scalar>(
    inputs: Seq<T>,
    weights: Seq<T>,
    count: nat,
    first: T,
    second: T,
)
    requires
        exact::<T>(),
        accumulates(inputs, weights, count, first),
        accumulates(inputs, weights, count, second),
    ensures
        first == second,
    decreases count,
{
    if count > 0 {
        let (earlier1, term1) = choose|earlier: T, term: T|
            #![trigger adds(earlier, term, first)]
            accumulates(inputs, weights, (count - 1) as nat, earlier) && multiplies(
                inputs[count - 1],
                weights[count - 1],
                term,
            ) && adds(earlier, term, first);
        let (earlier2, term2) = choose|earlier: T, term: T|
            #![trigger adds(earlier, term, second)]
            accumulates(inputs, weights, (count - 1) as nat, earlier) && multiplies(
                inputs[count - 1],
                weights[count - 1],
                term,
            ) && adds(earlier, term, second);
        lemma_accumulates_exact(inputs, weights, (count - 1) as nat, earlier1, earlier2);
    }
}

/// With exact arithmetic a neuron answers given inputs with one value:
/// propagation is a function of the neuron and its inputs.
pub proof fn lemma_fires_exact<T: Scalar>(
    neuron: NeuronModel<T>,
    inputs: Seq<T>,
    first: T,
    second: T,
)
    requires
        exact::<T>(),
        fires(neuron, inputs, first),
        fires(neuron, inputs, second),
    ensures
        first == second,
{
    let (total1, raised1, floor1) = choose|total: T, raised: T, floor: T|
        #![trigger adds(neuron.bias, total, raised), picks_larger(raised, floor, first)]
        accumulates(inputs, neuron.weights, inputs.len(), total) && adds(
            neuron.bias,
            total,
            raised,
        ) && constant(0i8, floor) && picks_larger(raised, floor, first);
    let (total2, raised2, floor2) = choose|total: T, raised: T, floor: T|
        #![trigger adds(neuron.bias, total, raised), picks_larger(raised, floor, second)]
        accumulates(inputs, neuron.weights, inputs.len(), total) && adds(
            neuron.bias,
            total,
            raised,
        ) && constant(0i8, floor) && picks_larger(raised, floor, second);
    lemma_accumulates_exact(inputs, neuron.weights, inputs.len(), total1, total2);
}

/// A neuron is its parameters: two neurons with the same parameters in the
/// same order are the same neuron.
pub proof fn lemma_neuron_determined<T>(first: NeuronModel<T>, second: NeuronModel<T>)
    requires
        first.parameters() == second.parameters(),
    ensures
        first == second,
{
    assert(first.bias == first.parameters()[0]);
    assert(second.bias == second.parameters()[0]);
    assert(first.weights =~= first.parameters().skip(1));
    assert(second.weights =~= second.parameters().skip(1));
}

/// Building a neuron is repeatable: two neurons of the same width, each
/// built from the same state of a repeatable source, are the same neuron, and
/// both constructions leave the source in the same state.
pub proof fn lemma_neuron_repeatable<T: Scalar, S: Source<T>>(
    start: S,
    first: NeuronModel<T>,
    first_end: S,
    second: NeuronModel<T>,
    second_end: S,
)
    requires
        repeatable::<T, S>(),
        fixed_constants::<T>(),
        first.weights.len() == second.weights.len(),
        emits(start, first.parameters(), first_end),
        emits(start, second.parameters(), second_end),
    ensures
        first == second,
        first_end == second_end,
{
    lemma_emits_repeatable(
        start,
        first.parameters(),
        first_end,
        second.parameters(),
        second_end,
    );
    lemma_neuron_determined(first, second);
}

} // verus!
