use vstd::prelude::*;
use crate::error::ContractViolation;
use crate::neuron::{
    fires,
    lemma_fires_exact,
    lemma_neuron_determined,
    neuron_models,
    Neuron,
    NeuronModel,
};
use crate::scalar::{exact, fixed_constants, Scalar};
use crate::sequences::lemma_joined_parts;
use crate::source::{emits, lemma_emits_joined, lemma_emits_repeatable, repeatable, Source};

verus! {

/// One layer: a row of neurons that all read the same inputs. There is one
/// neuron per output.
#[derive(Debug)]
pub struct Layer<T> {
    neurons: Vec<Neuron<T>>,
}

impl<T> View for Layer<T> {
    type V = Seq<NeuronModel<T>>;

    closed spec fn view(&self) -> Seq<NeuronModel<T>> {
        neuron_models(self.neurons@)
    }
}

/// The numbers of a row of neurons in the order in which they are drawn:
/// neuron after neuron, each with its bias before its weights.
pub open spec fn layer_parameters<T>(neurons: Seq<NeuronModel<T>>) -> Seq<T>
    decreases neurons.len(),
{
    if neurons.len() == 0 {
        Seq::empty()
    } else {
        layer_parameters(neurons.drop_last()) + neurons.last().parameters()
    }
}

/// The row holds `output_width` neurons of `input_width` weights each.
pub open spec fn layer_shaped<T>(
    neurons: Seq<NeuronModel<T>>,
    input_width: nat,
    output_width: nat,
) -> bool {
    &&& neurons.len() == output_width
    &&& layer_accepts(neurons, input_width)
}

/// Every neuron of the row takes `input_width` inputs.
pub open spec fn layer_accepts<T>(neurons: Seq<NeuronModel<T>>, input_width: nat) -> bool {
    forall|j: int| 0 <= j < neurons.len() ==> (#[trigger] neurons[j]).weights.len() == input_width
}

/// All neurons of the row have the same number of weights.
pub open spec fn uniform<T>(neurons: Seq<NeuronModel<T>>) -> bool {
    forall|j: int, k: int|
        0 <= j < neurons.len() && 0 <= k < neurons.len() ==> (#[trigger] neurons[j]).weights.len()
            == (#[trigger] neurons[k]).weights.len()
}

/// `outputs` is what the row answers to `inputs`: one output per neuron, in
/// the order of the neurons, each neuron reading all of `inputs`.
pub open spec fn layer_fires<T: Scalar>(
    neurons: Seq<NeuronModel<T>>,
    inputs: Seq<T>,
    outputs: Seq<T>,
) -> bool {
    &&& outputs.len() == neurons.len()
    &&& forall|j: int| 0 <= j < neurons.len() ==> fires(neurons[j], inputs, #[trigger] outputs[j])
}

impl<T: Scalar> Layer<T> {
    /// The layer's invariant: its neurons agree on the number of inputs.
    pub open spec fn well_formed(&self) -> bool {
        uniform(self@)
    }

    /// A layer of `output_neurons` random neurons for `input_neurons` inputs.
    ///
    /// The neurons are built one after the other, from the first to the
    /// last, and each takes its numbers from the source before the next.
    pub fn random<S: Source<T>>(
        source: &mut S,
        input_neurons: usize,
        output_neurons: usize,
    ) -> (r: Self)
        ensures
            layer_shaped(r@, input_neurons as nat, output_neurons as nat),
            r.well_formed(),
            emits(*old(source), layer_parameters(r@), *final(source)),
    {
        let mut neurons: Vec<Neuron<T>> = Vec::new();
        let mut j: usize = 0;
        while j < output_neurons
            invariant
                j <= output_neurons,
                neurons@.len() == j,
                layer_accepts(neuron_models(neurons@), input_neurons as nat),
                emits(*old(source), layer_parameters(neuron_models(neurons@)), *source),
            decreases output_neurons - j,
        {
            let ghost before = *source;
            let ghost earlier = neuron_models(neurons@);
            let neuron = Neuron::random(source, input_neurons);
            neurons.push(neuron);
            proof {
                let row = neuron_models(neurons@);
                assert(row.drop_last() =~= earlier);
                assert(row.last() == neuron@);
                assert forall|k: int| 0 <= k < row.len() implies (#[trigger] row[k]).weights.len()
                    == input_neurons by {
                    if k < earlier.len() {
                        assert(row[k] == earlier[k]);
                    }
                }
                lemma_emits_joined(
                    *old(source),
                    layer_parameters(earlier),
                    before,
                    neuron@.parameters(),
                    *source,
                );
            }
            j += 1;
        }
        Layer { neurons }
    }

    /// The layer's answer to `inputs`: the answer of each neuron to the same
    /// `inputs`, in the order of the neurons.
    ///
    /// Every neuron must have as many weights as there are inputs; otherwise
    /// the call fails and no output is produced.
    pub fn propagate(&self, inputs: Vec<T>) -> (r: Result<Vec<T>, ContractViolation>)
        ensures
            match r {
                Ok(outputs) => layer_accepts(self@, inputs@.len()) && layer_fires(
                    self@,
                    inputs@,
                    outputs@,
                ),
                Err(violation) => !layer_accepts(self@, inputs@.len()) && violation
                    == ContractViolation::InputWidthMismatch,
            },
    {
        let mut outputs: Vec<T> = Vec::with_capacity(self.neurons.len());
        let mut j: usize = 0;
        while j < self.neurons.len()
            invariant
                j <= self.neurons@.len(),
                outputs@.len() == j,
                forall|k: int|
                    0 <= k < j ==> (#[trigger] self@[k]).weights.len() == inputs@.len(),
                forall|k: int| 0 <= k < j ==> fires(self@[k], inputs@, #[trigger] outputs@[k]),
            decreases self.neurons.len() - j,
        {
            match self.neurons[j].propagate(inputs.as_slice()) {
                Ok(output) => {
                    outputs.push(output);
                },
                Err(violation) => {
                    assert(self@[j as int].weights.len() != inputs@.len());
                    return Err(violation);
                },
            }
            j += 1;
        }
        Ok(outputs)
    }

    /// The neurons of the layer, in order.
    pub fn neurons(&self) -> (r: &[Neuron<T>])
        ensures
            neuron_models(r@) == self@,
    {
        self.neurons.as_slice()
    }
}

/// A row that takes `input_width` inputs still does without its last
/// neuron, and that neuron has `input_width` weights.
pub proof fn lemma_accepts_drop_last<T>(neurons: Seq<NeuronModel<T>>, input_width: nat)
    requires
        neurons.len() > 0,
        layer_accepts(neurons, input_width),
    ensures
        layer_accepts(neurons.drop_last(), input_width),
        neurons.last().weights.len() == input_width,
{
    let front = neurons.drop_last();
    assert forall|j: int| 0 <= j < front.len() implies (#[trigger] front[j]).weights.len()
        == input_width by {
        assert(front[j] == neurons[j]);
    }
    assert(neurons.last() == neurons[neurons.len() - 1]);
}

/// Rows of the same shape have the same number of parameters.
pub proof fn lemma_layer_parameters_len<T>(
    first: Seq<NeuronModel<T>>,
    second: Seq<NeuronModel<T>>,
    input_width: nat,
)
    requires
        first.len() == second.len(),
        layer_accepts(first, input_width),
        layer_accepts(second, input_width),
    ensures
        layer_parameters(first).len() == layer_parameters(second).len(),
    decreases first.len(),
{
    if first.len() > 0 {
        lemma_accepts_drop_last(first, input_width);
        lemma_accepts_drop_last(second, input_width);
        lemma_layer_parameters_len(first.drop_last(), second.drop_last(), input_width);
    }
}

/// A row is its shape and its parameters: two rows of the same shape with
/// the same parameters in the same order are the same row.
pub proof fn lemma_layer_determined<T>(
    first: Seq<NeuronModel<T>>,
    second: Seq<NeuronModel<T>>,
    input_width: nat,
)
    requires
        first.len() == second.len(),
        layer_accepts(first, input_width),
        layer_accepts(second, input_width),
        layer_parameters(first) == layer_parameters(second),
    ensures
        first == second,
    decreases first.len(),
{
    if first.len() == 0 {
        assert(first =~= second);
    } else {
        lemma_accepts_drop_last(first, input_width);
        lemma_accepts_drop_last(second, input_width);
        lemma_joined_parts(
            layer_parameters(first.drop_last()),
            first.last().parameters(),
            layer_parameters(second.drop_last()),
            second.last().parameters(),
        );
        lemma_layer_determined(first.drop_last(), second.drop_last(), input_width);
        lemma_neuron_determined(first.last(), second.last());
        assert(first =~= first.drop_last().push(first.last()));
        assert(second =~= second.drop_last().push(second.last()));
    }
}

/// Building a layer is repeatable: two layers of the same shape, each built
/// from the same state of a repeatable source, are the same layer, and both
/// constructions leave the source in the same state.
pub proof fn lemma_layer_repeatable<T: Scalar, S: Source<T>>(
    start: S,
    input_width: nat,
    output_width: nat,
    first: Seq<NeuronModel<T>>,
    first_end: S,
    second: Seq<NeuronModel<T>>,
    second_end: S,
)
    requires
        repeatable::<T, S>(),
        fixed_constants::<T>(),
        layer_shaped(first, input_width, output_width),
        layer_shaped(second, input_width, output_width),
        emits(start, layer_parameters(first), first_end),
        emits(start, layer_parameters(second), second_end),
    ensures
        first == second,
        first_end == second_end,
{
    lemma_layer_parameters_len(first, second, input_width);
    lemma_emits_repeatable(
        start,
        layer_parameters(first),
        first_end,
        layer_parameters(second),
        second_end,
    );
    lemma_layer_determined(first, second, input_width);
}

/// With exact arithmetic a row answers given inputs with one vector.
pub proof fn lemma_layer_fires_exact<T: Scalar>(
    neurons: Seq<NeuronModel<T>>,
    inputs: Seq<T>,
    first: Seq<T>,
    second: Seq<T>,
)
    requires
        exact::<T>(),
        layer_fires(neurons, inputs, first),
        layer_fires(neurons, inputs, second),
    ensures
        first == second,
{
    assert forall|j: int| 0 <= j < first.len() implies first[j] == second[j] by {
        lemma_fires_exact(neurons[j], inputs, first[j], second[j]);
    }
    assert(first =~= second);
}

} // verus!
