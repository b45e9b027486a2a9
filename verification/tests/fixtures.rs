use neural_network::{
    ContractViolation, Layer, LayerTopology, Network, Neuron, Replay, Scalar, Source,
};
use rand::{Rng, RngCore, SeedableRng};
use rand_chacha::ChaCha8Rng;

/// Single-precision numbers as network scalars.
#[derive(Clone, Copy, Debug, PartialEq)]
struct Real(f32);

impl Scalar for Real {
    fn from_int(value: i8) -> Self {
        Real(f32::from(value))
    }

    fn sum(self, rhs: Self) -> Self {
        Real(self.0 + rhs.0)
    }

    fn product(self, rhs: Self) -> Self {
        Real(self.0 * rhs.0)
    }

    fn larger(self, rhs: Self) -> Self {
        Real(self.0.max(rhs.0))
    }
}

/// A random number generator as a source of uniformly distributed scalars.
struct Uniform<'a>(&'a mut dyn RngCore);

impl<'a> Source<Real> for Uniform<'a> {
    fn sample(&mut self, low: Real, high: Real) -> Real {
        Real(self.0.gen_range(low.0..=high.0))
    }
}

fn topology(sizes: &[usize]) -> Vec<LayerTopology> {
    sizes.iter().map(|&neurons| LayerTopology { neurons }).collect()
}

fn reals(values: &[f32]) -> Vec<Real> {
    values.iter().map(|&v| Real(v)).collect()
}

fn floats(values: &[Real]) -> Vec<f32> {
    values.iter().map(|v| v.0).collect()
}

fn bits(neuron: &Neuron<Real>) -> Vec<u32> {
    let mut all = vec![neuron.bias.0.to_bits()];
    all.extend(neuron.weights.iter().map(|w| w.0.to_bits()));
    all
}

fn network_bits(network: &Network<Real>) -> Vec<Vec<Vec<u32>>> {
    network
        .layers()
        .iter()
        .map(|layer| layer.neurons().iter().map(bits).collect())
        .collect()
}

#[test]
fn test() {
    let mut rng = ChaCha8Rng::seed_from_u64(2);
    let neuron = Neuron::random(&mut Uniform(&mut rng), 4);

    assert!(approx::Relative::default().eq(&neuron.bias.0, &-0.6129729));

    assert!(approx::Relative::default().eq(
        floats(&neuron.weights).as_slice(),
        [0.7626815, 0.044567704, 0.09686196, -0.93544626].as_ref()
    ));
}

#[test]
fn lib_test() {
    let neuron = Neuron {
        bias: Real(0.5),
        weights: reals(&[-0.3, 0.8]),
    };

    // Ensures relu works
    assert!(approx::Relative::default().eq(
        &neuron.propagate(&reals(&[-10.0, -10.0])).unwrap().0,
        &0.0
    ));

    // `0.5` and `1.0` chosen by a fair dice roll:
    assert!(approx::Relative::default().eq(
        &neuron.propagate(&reals(&[0.5, 1.0])).unwrap().0,
        &((-0.3 * 0.5) + (0.8 * 1.0) + 0.5)
    ));
}

#[test]
fn relu_clamps_to_exactly_zero_and_passes_exact_sum() {
    let neuron = Neuron {
        bias: Real(0.5),
        weights: reals(&[-0.3, 0.8]),
    };
    assert_eq!(neuron.propagate(&reals(&[-10.0, -10.0])), Ok(Real(0.0)));
    // The products are added to a running total that starts at zero, and the
    // bias is added last, on the left.
    let expected = 0.5f32 + ((0.0f32 + 0.5f32 * -0.3f32) + 1.0f32 * 0.8f32);
    assert_eq!(neuron.propagate(&reals(&[0.5, 1.0])), Ok(Real(expected)));
    assert!((expected - 1.15).abs() < 1e-6);
}

#[test]
fn three_two_one_topology_gives_two_layers() {
    let mut rng = ChaCha8Rng::seed_from_u64(7);
    let network = Network::random(&mut Uniform(&mut rng), &topology(&[3, 2, 1])).unwrap();

    let layers = network.layers();
    assert_eq!(layers.len(), 2);
    assert_eq!(layers[0].neurons().len(), 2);
    assert!(layers[0].neurons().iter().all(|n| n.weights.len() == 3));
    assert_eq!(layers[1].neurons().len(), 1);
    assert_eq!(layers[1].neurons()[0].weights.len(), 2);

    for inputs in [[0.0, 0.0, 0.0], [1.0, -2.0, 3.5], [-1e9, 1e9, 0.25]] {
        let outputs = network.propagate(reals(&inputs)).unwrap();
        assert_eq!(outputs.len(), 1);
    }
}

#[test]
fn random_network_has_the_shape_of_its_topology() {
    for sizes in [
        vec![1, 1],
        vec![4, 3],
        vec![2, 5, 3, 1],
        vec![3, 0, 2],
        vec![0, 2],
        vec![6, 1, 6, 1, 6],
    ] {
        let mut rng = ChaCha8Rng::seed_from_u64(11);
        let network = Network::random(&mut Uniform(&mut rng), &topology(&sizes)).unwrap();
        let layers = network.layers();
        assert_eq!(layers.len(), sizes.len() - 1);
        for (i, layer) in layers.iter().enumerate() {
            assert_eq!(layer.neurons().len(), sizes[i + 1]);
            for neuron in layer.neurons() {
                assert_eq!(neuron.weights.len(), sizes[i]);
            }
        }
    }
}

#[test]
fn random_parameters_lie_in_the_unit_range() {
    let mut rng = ChaCha8Rng::seed_from_u64(3);
    let network = Network::random(&mut Uniform(&mut rng), &topology(&[8, 8, 8])).unwrap();
    for layer in network.layers() {
        for neuron in layer.neurons() {
            assert!((-1.0..=1.0).contains(&neuron.bias.0));
            assert!(neuron.weights.iter().all(|w| (-1.0..=1.0).contains(&w.0)));
        }
    }
}

#[test]
fn same_seed_gives_the_same_network() {
    let sizes = topology(&[3, 4, 2]);
    let mut first_rng = ChaCha8Rng::seed_from_u64(42);
    let mut second_rng = ChaCha8Rng::seed_from_u64(42);
    let first = Network::random(&mut Uniform(&mut first_rng), &sizes).unwrap();
    let second = Network::random(&mut Uniform(&mut second_rng), &sizes).unwrap();
    assert_eq!(network_bits(&first), network_bits(&second));
    // Both constructions leave the generator in the same state.
    assert_eq!(first_rng.next_u64(), second_rng.next_u64());

    let mut other_rng = ChaCha8Rng::seed_from_u64(43);
    let other = Network::random(&mut Uniform(&mut other_rng), &sizes).unwrap();
    assert_ne!(network_bits(&first), network_bits(&other));
}

#[test]
fn same_seed_gives_the_same_layer_and_neuron() {
    let mut first_rng = ChaCha8Rng::seed_from_u64(5);
    let mut second_rng = ChaCha8Rng::seed_from_u64(5);
    let first = Layer::random(&mut Uniform(&mut first_rng), 3, 2);
    let second = Layer::random(&mut Uniform(&mut second_rng), 3, 2);
    let first_bits: Vec<Vec<u32>> = first.neurons().iter().map(bits).collect();
    let second_bits: Vec<Vec<u32>> = second.neurons().iter().map(bits).collect();
    assert_eq!(first_bits, second_bits);

    let first = Neuron::random(&mut Uniform(&mut first_rng), 6);
    let second = Neuron::random(&mut Uniform(&mut second_rng), 6);
    assert_eq!(bits(&first), bits(&second));
}

#[test]
fn network_draws_layer_by_layer_and_neuron_by_neuron() {
    // A network consumes the generator exactly as its neurons would, built
    // one after the other.
    let mut rng = ChaCha8Rng::seed_from_u64(2);
    let network = Network::random(&mut Uniform(&mut rng), &topology(&[4, 2, 1])).unwrap();

    let mut rng = ChaCha8Rng::seed_from_u64(2);
    let mut source = Uniform(&mut rng);
    let expected = vec![
        vec![
            bits(&Neuron::random(&mut source, 4)),
            bits(&Neuron::random(&mut source, 4)),
        ],
        vec![bits(&Neuron::random(&mut source, 2))],
    ];
    assert_eq!(network_bits(&network), expected);

    let first = &network.layers()[0].neurons()[0];
    assert!(approx::Relative::default().eq(&first.bias.0, &-0.6129729));
    assert!(approx::Relative::default().eq(
        floats(&first.weights).as_slice(),
        [0.7626815, 0.044567704, 0.09686196, -0.93544626].as_ref()
    ));
}

#[test]
fn neuron_output_is_never_negative() {
    let mut rng = ChaCha8Rng::seed_from_u64(9);
    let samples = [
        [0.0, 0.0, 0.0],
        [-100.0, -100.0, -100.0],
        [100.0, 100.0, 100.0],
        [f32::MAX, f32::MAX, f32::MAX],
        [f32::MIN, f32::MIN, f32::MIN],
        [f32::INFINITY, f32::NEG_INFINITY, 1.0],
        [f32::NAN, 0.0, 1.0],
    ];
    for _ in 0..50 {
        let neuron = Neuron::random(&mut Uniform(&mut rng), 3);
        for inputs in samples {
            let output = neuron.propagate(&reals(&inputs)).unwrap();
            assert!(output.0 >= 0.0, "{:?} on {:?} gave {:?}", neuron, inputs, output);
        }
    }
}

#[test]
fn propagation_returns_as_many_values_as_the_last_size() {
    for sizes in [vec![1, 1], vec![3, 2, 1], vec![2, 7, 4], vec![5, 0], vec![4, 4, 4, 9]] {
        let mut rng = ChaCha8Rng::seed_from_u64(21);
        let network = Network::random(&mut Uniform(&mut rng), &topology(&sizes)).unwrap();
        let inputs = reals(&vec![0.5; sizes[0]]);
        let outputs = network.propagate(inputs).unwrap();
        assert_eq!(outputs.len(), *sizes.last().unwrap());
    }
}

#[test]
fn short_topology_is_refused_and_draws_nothing() {
    let mut rng = ChaCha8Rng::seed_from_u64(2);
    let none: Result<Network<Real>, _> = Network::random(&mut Uniform(&mut rng), &topology(&[]));
    assert_eq!(none.err(), Some(ContractViolation::TopologyTooShort));
    let one: Result<Network<Real>, _> = Network::random(&mut Uniform(&mut rng), &topology(&[3]));
    assert_eq!(one.err(), Some(ContractViolation::TopologyTooShort));

    // The generator is where it was: the next neuron is the first one of
    // this seed.
    let neuron = Neuron::random(&mut Uniform(&mut rng), 4);
    assert!(approx::Relative::default().eq(&neuron.bias.0, &-0.6129729));
}

#[test]
fn mismatched_input_is_refused() {
    let neuron = Neuron {
        bias: Real(0.5),
        weights: reals(&[-0.3, 0.8]),
    };
    assert_eq!(neuron.propagate(&reals(&[1.0])), Err(ContractViolation::InputWidthMismatch));
    assert_eq!(neuron.propagate(&reals(&[])), Err(ContractViolation::InputWidthMismatch));
    assert_eq!(
        neuron.propagate(&reals(&[1.0, 2.0, 3.0])),
        Err(ContractViolation::InputWidthMismatch)
    );

    let mut rng = ChaCha8Rng::seed_from_u64(1);
    let layer = Layer::random(&mut Uniform(&mut rng), 3, 2);
    assert_eq!(layer.propagate(reals(&[1.0, 2.0])), Err(ContractViolation::InputWidthMismatch));
    assert!(layer.propagate(reals(&[1.0, 2.0, 3.0])).is_ok());

    let network = Network::random(&mut Uniform(&mut rng), &topology(&[3, 2, 1])).unwrap();
    assert_eq!(network.propagate(reals(&[1.0, 2.0])), Err(ContractViolation::InputWidthMismatch));
    assert_eq!(
        network.propagate(reals(&[1.0, 2.0, 3.0, 4.0])),
        Err(ContractViolation::InputWidthMismatch)
    );
    assert_eq!(network.propagate(reals(&[])), Err(ContractViolation::InputWidthMismatch));
    assert!(network.propagate(reals(&[1.0, 2.0, 3.0])).is_ok());
}

#[test]
fn neuron_without_weights_answers_with_its_clamped_bias() {
    let positive = Neuron { bias: Real(0.25), weights: reals(&[]) };
    assert_eq!(positive.propagate(&reals(&[])), Ok(Real(0.25)));
    let negative = Neuron { bias: Real(-0.25), weights: reals(&[]) };
    assert_eq!(negative.propagate(&reals(&[])), Ok(Real(0.0)));

    let mut rng = ChaCha8Rng::seed_from_u64(2);
    let drawn = Neuron::random(&mut Uniform(&mut rng), 0);
    assert!(drawn.weights.is_empty());
    assert!(approx::Relative::default().eq(&drawn.bias.0, &-0.6129729));
}

#[test]
fn empty_layer_answers_any_input_with_nothing() {
    let mut rng = ChaCha8Rng::seed_from_u64(2);
    let layer = Layer::random(&mut Uniform(&mut rng), 3, 0);
    assert!(layer.neurons().is_empty());
    assert_eq!(layer.propagate(reals(&[1.0, 2.0, 3.0])), Ok(vec![]));
    assert_eq!(layer.propagate(reals(&[1.0])), Ok(vec![]));
    assert_eq!(layer.propagate(reals(&[])), Ok(vec![]));

    // Nothing was drawn for it.
    let neuron = Neuron::random(&mut Uniform(&mut rng), 4);
    assert!(approx::Relative::default().eq(&neuron.bias.0, &-0.6129729));
}

#[test]
fn layer_applies_every_neuron_to_the_same_inputs() {
    let mut source = Replay::new(reals(&[0.5, -0.3, 0.8, -1.0, 0.25, 0.5]));
    let layer = Layer::random(&mut source, 2, 2);
    assert_eq!(layer.neurons()[0].bias, Real(0.5));
    assert_eq!(layer.neurons()[0].weights, reals(&[-0.3, 0.8]));
    assert_eq!(layer.neurons()[1].bias, Real(-1.0));
    assert_eq!(layer.neurons()[1].weights, reals(&[0.25, 0.5]));

    let outputs = layer.propagate(reals(&[0.5, 1.0])).unwrap();
    assert_eq!(outputs.len(), 2);
    assert!(approx::Relative::default().eq(&outputs[0].0, &1.15));
    // -1.0 + 0.5 * 0.25 + 1.0 * 0.5 is below zero.
    assert_eq!(outputs[1], Real(0.0));

    let outputs = layer.propagate(reals(&[4.0, 2.0])).unwrap();
    assert!(approx::Relative::default().eq(&outputs[0].0, &(0.5 - 1.2 + 1.6)));
    assert!(approx::Relative::default().eq(&outputs[1].0, &(-1.0 + 1.0 + 1.0)));
}

#[test]
fn network_feeds_each_layer_with_the_output_of_the_one_before() {
    // Two inputs, two hidden neurons, one output neuron.
    let mut source = Replay::new(reals(&[
        0.5, -0.3, 0.8, // hidden neuron 0
        -1.0, 0.25, 0.5, // hidden neuron 1
        0.125, 2.0, -4.0, // output neuron
    ]));
    let network = Network::random(&mut source, &topology(&[2, 2, 1])).unwrap();

    // Hidden layer on [4, 2]: [0.9, 1.0]; output: 0.125 + 2 * 0.9 - 4 * 1.0 < 0.
    let outputs = network.propagate(reals(&[4.0, 2.0])).unwrap();
    assert_eq!(outputs, vec![Real(0.0)]);

    // Hidden layer on [0.5, 1.0]: [1.15, 0.0]; output: 0.125 + 2 * 1.15.
    let outputs = network.propagate(reals(&[0.5, 1.0])).unwrap();
    assert_eq!(outputs.len(), 1);
    assert!(approx::Relative::default().eq(&outputs[0].0, &2.425));

    // Propagation changes nothing: the same inputs give the same outputs.
    let again = network.propagate(reals(&[0.5, 1.0])).unwrap();
    assert_eq!(outputs[0].0.to_bits(), again[0].0.to_bits());
}
