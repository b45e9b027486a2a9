use vstd::prelude::*;
use crate::error::ContractViolation;
use crate::layer::{
    layer_accepts,
    layer_fires,
    layer_parameters,
    layer_shaped,
    lemma_layer_determined,
    lemma_layer_fires_exact,
    lemma_layer_parameters_len,
    uniform,
    Layer,
};
use crate::neuron::NeuronModel;
use crate::scalar::{exact, fixed_constants, Scalar};
use crate::sequences::lemma_joined_parts;
use crate::source::{emits, lemma_emits_joined, lemma_emits_repeatable, repeatable, Source};
use crate::topology::{widths, LayerTopology};

verus! {

/// A feedforward network: layers through which an input vector is passed,
/// the output of each being the input of the next.
#[derive(Debug)]
pub struct Network<T> {
    layers: Vec<Layer<T>>,
}

/// The models of a sequence of layers.
pub open spec fn layer_models<T>(layers: Seq<Layer<T>>) -> Seq<Seq<NeuronModel<T>>> {
    Seq::new(layers.len(), |i: int| layers[i]@)
}

impl<T> View for Network<T> {
    type V = Seq<Seq<NeuronModel<T>>>;

    closed spec fn view(&self) -> Seq<Seq<NeuronModel<T>>> {
        layer_models(self.layers@)
    }
}

/// The numbers of a network in the order in which they are drawn: layer
/// after layer, each layer in full before the next.
pub open spec fn network_parameters<T>(layers: Seq<Seq<NeuronModel<T>>>) -> Seq<T>
    decreases layers.len(),
{
    if layers.len() == 0 {
        Seq::empty()
    } else {
        network_parameters(layers.drop_last()) + layer_parameters(layers.last())
    }
}

/// The layers follow the topology `sizes`: there is one layer for each pair
/// of neighbouring sizes, with as many neurons as the second size says, each
/// of as many weights as the first size says.
pub open spec fn shaped<T>(layers: Seq<Seq<NeuronModel<T>>>, sizes: Seq<nat>) -> bool {
    &&& layers.len() + 1 == sizes.len()
    &&& forall|i: int|
        0 <= i < layers.len() ==> layer_shaped(#[trigger] layers[i], sizes[i], sizes[i + 1])
}

/// The length of the vector that reaches layer `i` when the network is given
/// `input_width` inputs.
pub open spec fn width_before<T>(
    layers: Seq<Seq<NeuronModel<T>>>,
    input_width: nat,
    i: int,
) -> nat {
    if i <= 0 {
        input_width
    } else {
        layers[i - 1].len()
    }
}

/// Every layer takes the vector that reaches it when the network is given
/// `input_width` inputs.
pub open spec fn accepts<T>(layers: Seq<Seq<NeuronModel<T>>>, input_width: nat) -> bool {
    forall|i: int|
        0 <= i < layers.len() ==> layer_accepts(
            #[trigger] layers[i],
            width_before(layers, input_width, i),
        )
}

/// There is at least one layer, the neurons of a layer agree on the number
/// of inputs, and each layer but the first takes what the layer before it
/// puts out.
pub open spec fn chained<T>(layers: Seq<Seq<NeuronModel<T>>>) -> bool {
    &&& layers.len() >= 1
    &&& forall|i: int| 0 <= i < layers.len() ==> uniform(#[trigger] layers[i])
    &&& forall|i: int|
        1 <= i < layers.len() ==> layer_accepts(#[trigger] layers[i], layers[i - 1].len())
}

/// `outputs` is what the layers answer to `inputs`: the first layer reads
/// `inputs`, each further layer reads the outputs of the layer before it,
/// and `outputs` is what the last layer puts out.
pub open spec fn flows<T: Scalar>(
    layers: Seq<Seq<NeuronModel<T>>>,
    inputs: Seq<T>,
    outputs: Seq<T>,
) -> bool
    decreases layers.len(),
{
    if layers.len() == 0 {
        outputs == inputs
    } else {
        exists|hidden: Seq<T>|
            #![trigger layer_fires(layers.last(), hidden, outputs)]
            flows(layers.drop_last(), inputs, hidden) && layer_fires(
                layers.last(),
                hidden,
                outputs,
            )
    }
}

/// Layers that follow a topology of two sizes or more are chained.
pub proof fn lemma_shaped_is_chained<T>(layers: Seq<Seq<NeuronModel<T>>>, sizes: Seq<nat>)
    requires
        sizes.len() >= 2,
        shaped(layers, sizes),
    ensures
        chained(layers),
{
    assert forall|i: int| 1 <= i < layers.len() implies layer_accepts(
        #[trigger] layers[i],
        layers[i - 1].len(),
    ) by {
        assert(layer_shaped(layers[i - 1], sizes[i - 1], sizes[i]));
    }
}

impl<T: Scalar> Network<T> {
    /// The network's invariant: see [`chained`].
    pub open spec fn well_formed(&self) -> bool {
        chained(self@)
    }

    /// A network of random layers that follows the topology `layers`.
    ///
    /// A topology describes a network only if it has two entries or more;
    /// a shorter one is refused, and then nothing is drawn. Otherwise one
    /// layer is built for each pair of neighbouring entries, from the first
    /// pair to the last, and each layer takes all its numbers from the
    /// source before the next layer is begun.
    pub fn random<S: Source<T>>(source: &mut S, layers: &[LayerTopology]) -> (r: Result<
        Self,
        ContractViolation,
    >)
        ensures
            match r {
                Ok(network) => {
                    &&& layers@.len() > 1
                    &&& shaped(network@, widths(layers@))
                    &&& network.well_formed()
                    &&& emits(*old(source), network_parameters(network@), *final(source))
                },
                Err(violation) => {
                    &&& layers@.len() <= 1
                    &&& violation == ContractViolation::TopologyTooShort
                    &&& *final(source) == *old(source)
                },
            },
    {
        if layers.len() <= 1 {
            return Err(ContractViolation::TopologyTooShort);
        }
        let ghost sizes = widths(layers@);
        let mut built: Vec<Layer<T>> = Vec::new();
        let mut i: usize = 0;
        while i + 1 < layers.len()
            invariant
                layers@.len() > 1,
                i + 1 <= layers@.len(),
                sizes == widths(layers@),
                built@.len() == i,
                forall|k: int|
                    0 <= k < i ==> layer_shaped(
                        #[trigger] layer_models(built@)[k],
                        sizes[k],
                        sizes[k + 1],
                    ),
                emits(*old(source), network_parameters(layer_models(built@)), *source),
            decreases layers.len() - i,
        {
            let ghost before = *source;
            let ghost earlier = layer_models(built@);
            let layer = Layer::random(source, layers[i].neurons, layers[i + 1].neurons);
            built.push(layer);
            proof {
                let stack = layer_models(built@);
                assert(stack.drop_last() =~= earlier);
                assert(stack.last() == layer@);
                assert forall|k: int| 0 <= k < stack.len() implies layer_shaped(
                    #[trigger] stack[k],
                    sizes[k],
                    sizes[k + 1],
                ) by {
                    if k < earlier.len() {
                        assert(stack[k] == earlier[k]);
                    }
                }
                lemma_emits_joined(
                    *old(source),
                    network_parameters(earlier),
                    before,
                    layer_parameters(layer@),
                    *source,
                );
            }
            i += 1;
        }
        let network = Network { layers: built };
        proof {
            lemma_shaped_is_chained(network@, sizes);
        }
        Ok(network)
    }

    /// The network's answer to `inputs`: the inputs are passed through every
    /// layer in order, and what the last layer puts out is returned.
    ///
    /// Each layer must take the vector that reaches it; otherwise the call
    /// fails and no output is produced.
    pub fn propagate(&self, inputs: Vec<T>) -> (r: Result<Vec<T>, ContractViolation>)
        ensures
            match r {
                Ok(outputs) => {
                    &&& accepts(self@, inputs@.len())
                    &&& flows(self@, inputs@, outputs@)
                    &&& outputs@.len() == width_before(self@, inputs@.len(), self@.len() as int)
                },
                Err(violation) => !accepts(self@, inputs@.len()) && violation
                    == ContractViolation::InputWidthMismatch,
            },
    {
        let ghost given = inputs@;
        let mut current = inputs;
        let mut i: usize = 0;
        while i < self.layers.len()
            invariant
                i <= self.layers@.len(),
                given == inputs@,
                current@.len() == width_before(self@, given.len(), i as int),
                forall|k: int|
                    0 <= k < i ==> layer_accepts(
                        #[trigger] self@[k],
                        width_before(self@, given.len(), k),
                    ),
                flows(self@.take(i as int), given, current@),
            decreases self.layers.len() - i,
        {
            let ghost hidden = current@;
            match self.layers[i].propagate(current) {
                Ok(outputs) => {
                    current = outputs;
                },
                Err(violation) => {
                    assert(!layer_accepts(
                        self@[i as int],
                        width_before(self@, given.len(), i as int),
                    ));
                    return Err(violation);
                },
            }
            proof {
                let done = self@.take(i + 1);
                assert(done.drop_last() =~= self@.take(i as int));
                assert(done.last() == self@[i as int]);
                assert(layer_fires(done.last(), hidden, current@));
            }
            i += 1;
        }
        proof {
            assert(self@.take(i as int) =~= self@);
        }
        Ok(current)
    }

    /// The layers of the network, in order.
    pub fn layers(&self) -> (r: &[Layer<T>])
        ensures
            layer_models(r@) == self@,
    {
        self.layers.as_slice()
    }
}

/// A network that follows a topology takes an input vector exactly when the
/// vector is as long as the topology's first size says, or the first layer
/// has no neuron to object. Any other length is refused.
pub proof fn lemma_accepts_first_size<T>(
    layers: Seq<Seq<NeuronModel<T>>>,
    sizes: Seq<nat>,
    input_width: nat,
)
    requires
        sizes.len() >= 2,
        shaped(layers, sizes),
    ensures
        accepts(layers, input_width) <==> input_width == sizes[0] || sizes[1] == 0,
{
    assert(layer_shaped(layers[0], sizes[0], sizes[1]));
    if input_width == sizes[0] || sizes[1] == 0 {
        assert forall|i: int| 0 <= i < layers.len() implies layer_accepts(
            #[trigger] layers[i],
            width_before(layers, input_width, i),
        ) by {
            assert(layer_shaped(layers[i], sizes[i], sizes[i + 1]));
            if i > 0 {
                assert(layer_shaped(layers[i - 1], sizes[i - 1], sizes[i]));
            }
        }
    } else {
        assert(layers[0][0].weights.len() == sizes[0]);
        assert(!layer_accepts(layers[0], width_before(layers, input_width, 0)));
    }
}

/// What a network puts out is as long as its last layer.
pub proof fn lemma_flows_len<T: Scalar>(
    layers: Seq<Seq<NeuronModel<T>>>,
    inputs: Seq<T>,
    outputs: Seq<T>,
)
    requires
        layers.len() >= 1,
        flows(layers, inputs, outputs),
    ensures
        outputs.len() == layers.last().len(),
{
}

/// Propagation arity: a network that follows a topology takes every input
/// vector that is as long as the topology's first size says, and whatever it
/// answers is as long as the topology's last size says.
pub proof fn lemma_propagation_arity<T: Scalar>(
    layers: Seq<Seq<NeuronModel<T>>>,
    sizes: Seq<nat>,
    inputs: Seq<T>,
    outputs: Seq<T>,
)
    requires
        sizes.len() >= 2,
        shaped(layers, sizes),
        inputs.len() == sizes[0],
    ensures
        accepts(layers, inputs.len()),
        flows(layers, inputs, outputs) ==> outputs.len() == sizes.last(),
{
    lemma_accepts_first_size(layers, sizes, inputs.len());
    if flows(layers, inputs, outputs) {
        lemma_flows_len(layers, inputs, outputs);
        let last = layers.len() - 1;
        assert(layer_shaped(layers[last], sizes[last], sizes[last + 1]));
    }
}

/// With exact arithmetic a network answers given inputs with one vector:
/// propagation is a function of the network and its inputs.
pub proof fn lemma_flows_exact<T: Scalar>(
    layers: Seq<Seq<NeuronModel<T>>>,
    inputs: Seq<T>,
    first: Seq<T>,
    second: Seq<T>,
)
    requires
        exact::<T>(),
        flows(layers, inputs, first),
        flows(layers, inputs, second),
    ensures
        first == second,
    decreases layers.len(),
{
    if layers.len() > 0 {
        let hidden1 = choose|hidden: Seq<T>|
            #![trigger layer_fires(layers.last(), hidden, first)]
            flows(layers.drop_last(), inputs, hidden) && layer_fires(layers.last(), hidden, first);
        let hidden2 = choose|hidden: Seq<T>|
            #![trigger layer_fires(layers.last(), hidden, second)]
            flows(layers.drop_last(), inputs, hidden) && layer_fires(
                layers.last(),
                hidden,
                second,
            );
        lemma_flows_exact(layers.drop_last(), inputs, hidden1, hidden2);
        lemma_layer_fires_exact(layers.last(), hidden1, first, second);
    }
}

/// Layers that follow a topology still do when the last layer and the last
/// size are taken away.
pub proof fn lemma_shaped_drop_last<T>(layers: Seq<Seq<NeuronModel<T>>>, sizes: Seq<nat>)
    requires
        layers.len() >= 1,
        shaped(layers, sizes),
    ensures
        shaped(layers.drop_last(), sizes.drop_last()),
        layer_shaped(
            layers.last(),
            sizes[layers.len() - 1],
            sizes[layers.len() as int],
        ),
{
    assert forall|i: int| 0 <= i < layers.drop_last().len() implies layer_shaped(
        #[trigger] layers.drop_last()[i],
        sizes.drop_last()[i],
        sizes.drop_last()[i + 1],
    ) by {
        assert(layer_shaped(layers[i], sizes[i], sizes[i + 1]));
    }
    let last = layers.len() - 1;
    assert(layer_shaped(layers[last], sizes[last], sizes[last + 1]));
}

/// Networks that follow the same topology have the same number of
/// parameters.
pub proof fn lemma_network_parameters_len<T>(
    first: Seq<Seq<NeuronModel<T>>>,
    second: Seq<Seq<NeuronModel<T>>>,
    sizes: Seq<nat>,
)
    requires
        shaped(first, sizes),
        shaped(second, sizes),
    ensures
        network_parameters(first).len() == network_parameters(second).len(),
    decreases first.len(),
{
    if first.len() > 0 {
        lemma_shaped_drop_last(first, sizes);
        lemma_shaped_drop_last(second, sizes);
        lemma_network_parameters_len(first.drop_last(), second.drop_last(), sizes.drop_last());
        lemma_layer_parameters_len(first.last(), second.last(), sizes[first.len() - 1]);
    }
}

/// A network is its topology and its parameters: two networks that follow
/// the same topology and have the same parameters in the same order are the
/// same network.
pub proof fn lemma_network_determined<T>(
    first: Seq<Seq<NeuronModel<T>>>,
    second: Seq<Seq<NeuronModel<T>>>,
    sizes: Seq<nat>,
)
    requires
        shaped(first, sizes),
        shaped(second, sizes),
        network_parameters(first) == network_parameters(second),
    ensures
        first == second,
    decreases first.len(),
{
    if first.len() == 0 {
        assert(first =~= second);
    } else {
        lemma_shaped_drop_last(first, sizes);
        lemma_shaped_drop_last(second, sizes);
        lemma_layer_parameters_len(first.last(), second.last(), sizes[first.len() - 1]);
        lemma_joined_parts(
            network_parameters(first.drop_last()),
            layer_parameters(first.last()),
            network_parameters(second.drop_last()),
            layer_parameters(second.last()),
        );
        lemma_network_determined(first.drop_last(), second.drop_last(), sizes.drop_last());
        lemma_layer_determined(first.last(), second.last(), sizes[first.len() - 1]);
        assert(first =~= first.drop_last().push(first.last()));
        assert(second =~= second.drop_last().push(second.last()));
    }
}

/// Building a network is repeatable: two networks that follow the same
/// topology, each built from the same state of a repeatable source, are the
/// same network, bias for bias and weight for weight, and both constructions
/// leave the source in the same state.
pub proof fn lemma_network_repeatable<T: Scalar, S: Source<T>>(
    start: S,
    sizes: Seq<nat>,
    first: Seq<Seq<NeuronModel<T>>>,
    first_end: S,
    second: Seq<Seq<NeuronModel<T>>>,
    second_end: S,
)
    requires
        repeatable::<T, S>(),
        fixed_constants::<T>(),
        shaped(first, sizes),
        shaped(second, sizes),
        emits(start, network_parameters(first), first_end),
        emits(start, network_parameters(second), second_end),
    ensures
        first == second,
        first_end == second_end,
{
    lemma_network_parameters_len(first, second, sizes);
    lemma_emits_repeatable(
        start,
        network_parameters(first),
        first_end,
        network_parameters(second),
        second_end,
    );
    lemma_network_determined(first, second, sizes);
}

} // verus!
