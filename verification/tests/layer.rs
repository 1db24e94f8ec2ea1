use feedforward::activation::identity;
use feedforward::feedforward::ConstantSource;
use feedforward::feedforward::FeedforwardLayer;
use feedforward::feedforward::QueueSource;
use feedforward::feedforward::ValueSource;
use feedforward::fixed::Fx;
use feedforward::fixed::FX_SCALE;
use feedforward::training::GradientDescent;
use feedforward::training::PerceptronRule;

fn half() -> Fx {
    Fx::from_raw(FX_SCALE / 2)
}

fn one() -> Fx {
    Fx::one()
}

fn zero() -> Fx {
    Fx::zero()
}

#[test]
fn basics() {
    let layer = FeedforwardLayer::new(7, 3, identity());
    assert_eq!(layer.input_size(), 7);
    assert_eq!(layer.output_size(), 3);
}

#[test]
fn compute() {
    let mut generator = ConstantSource { value: half() };
    let layer = FeedforwardLayer::new_from(4, 2, identity(), &mut generator);
    let output = layer.compute(&[one(), one(), one(), one()]);
    // all weights and biases are 0.5, output should be 4*0.5 + 0.5 = 2.5
    assert_eq!(output.len(), 2);
    for o in &output {
        assert!(((o.raw as f64) / (FX_SCALE as f64) - 2.5).abs() < 0.00001);
    }
}

#[test]
fn new_layer_sums_ones() {
    // all weights 1, all biases 0: on an all-ones input of full length,
    // every output is the number of inputs
    let layer = FeedforwardLayer::new(4, 2, identity());
    let output = layer.compute(&[one(), one(), one(), one()]);
    assert_eq!(output.len(), 2);
    for o in &output {
        assert_eq!(o.raw, 4 * FX_SCALE);
    }
}

#[test]
fn uniform_affine_outputs() {
    // weights and biases all 0.25, constant input 2.0 of length 3:
    // every output is 3 * (0.25 * 2.0) + 0.25 = 1.75
    let mut generator = ConstantSource { value: Fx::from_raw(FX_SCALE / 4) };
    let layer = FeedforwardLayer::new_from(3, 2, identity(), &mut generator);
    let two = Fx::from_raw(2 * FX_SCALE);
    let output = layer.compute(&[two, two, two]);
    for o in &output {
        assert_eq!(o.raw, 7 * FX_SCALE / 4);
    }
}

#[test]
fn compute_is_pure() {
    let mut generator = ConstantSource { value: half() };
    let layer = FeedforwardLayer::new_from(3, 2, identity(), &mut generator);
    let input = [one(), half(), Fx::from_raw(-FX_SCALE)];
    let first = layer.compute(&input);
    let second = layer.compute(&input);
    assert_eq!(first, second);
}

#[test]
fn perceptron_updates_weights_only() {
    let mut layer = FeedforwardLayer::new(1, 1, identity());
    let rule = PerceptronRule { rate: half() };
    // output before: 1.0; diff = 0 - 1.0; weight change = 0.5 * -1.0 * 1.0
    layer.supervised_train(&rule, &[one()], &[zero()]);
    let output = layer.compute(&[one()]);
    assert_eq!(output[0].raw, FX_SCALE / 2);
    // the bias is observable through an empty input and stays zero
    let bias_only = layer.compute(&[]);
    assert_eq!(bias_only[0].raw, 0);
}

#[test]
fn perceptron_leaves_unseen_weights() {
    // input shorter than input_size: the second weight is out of range and
    // must keep its value
    let mut layer = FeedforwardLayer::new(2, 1, identity());
    let rule = PerceptronRule { rate: half() };
    layer.supervised_train(&rule, &[one()], &[zero()]);
    // first weight became 1 + 0.5*(0 - 1)*1 = 0.5, second stayed 1
    let output = layer.compute(&[one(), one()]);
    assert_eq!(output[0].raw, 3 * FX_SCALE / 2);
}

#[test]
fn training_is_not_idempotent() {
    // the same call twice moves the weight by a different amount each time
    let mut layer = FeedforwardLayer::new(1, 1, identity());
    let rule = PerceptronRule { rate: half() };
    layer.supervised_train(&rule, &[one()], &[zero()]);
    let after_first = layer.compute(&[one()])[0].raw;
    layer.supervised_train(&rule, &[one()], &[zero()]);
    let after_second = layer.compute(&[one()])[0].raw;
    let first_change = after_first - FX_SCALE;
    let second_change = after_second - after_first;
    assert_eq!(after_first, FX_SCALE / 2);
    assert_eq!(after_second, FX_SCALE / 4);
    assert_ne!(first_change, second_change);
}

#[test]
fn zero_error_is_a_fixed_point() {
    // a target that already equals the output leaves the layer unchanged,
    // however often the same call is repeated
    let mut layer = FeedforwardLayer::new(2, 1, identity());
    let rule = PerceptronRule { rate: half() };
    let input = [one(), half()];
    let before = layer.compute(&input);
    // output is 1*1 + 1*0.5 + 0 = 1.5
    assert_eq!(before[0].raw, 3 * FX_SCALE / 2);
    layer.supervised_train(&rule, &input, &before);
    layer.supervised_train(&rule, &input, &before);
    assert_eq!(layer.compute(&input), before);
    let gd = GradientDescent { rate: half() };
    let mut layer2 = FeedforwardLayer::new(2, 1, identity());
    layer2.backprop_train(&gd, &input, &before);
    assert_eq!(layer2.compute(&input), before);
}

#[test]
fn backprop_returns_input_length() {
    // the returned vector follows input.len(), not input_size
    let mut layer = FeedforwardLayer::new(2, 1, identity());
    let rule = GradientDescent { rate: half() };
    let upstream = layer.backprop_train(&rule, &[one(), one(), one()], &[zero()]);
    assert_eq!(upstream.len(), 3);
    let mut layer2 = FeedforwardLayer::new(2, 1, identity());
    let upstream2 = layer2.backprop_train(&rule, &[one()], &[zero()]);
    assert_eq!(upstream2.len(), 1);
}

#[test]
fn backprop_updates_weight_and_returns_error() {
    let mut layer = FeedforwardLayer::new(1, 1, identity());
    let rule = GradientDescent { rate: half() };
    // net = 1.0, delta = 1.0, activated = 1.0
    // upstream = 1.0 - 1.0*1.0 = 0
    // weight -= 0.5 * 1.0 * 1.0 * (1.0 - 0) = 0.5
    let upstream = layer.backprop_train(&rule, &[one()], &[zero()]);
    assert_eq!(upstream.len(), 1);
    assert_eq!(upstream[0].raw, 0);
    let output = layer.compute(&[one()]);
    assert_eq!(output[0].raw, FX_SCALE / 2);
}

#[test]
fn gradient_supervised_matches_backprop() {
    let mut trained = FeedforwardLayer::new(2, 2, identity());
    let mut stepped = FeedforwardLayer::new(2, 2, identity());
    let rule = GradientDescent { rate: half() };
    let input = [one(), half()];
    let target = [zero()];
    trained.supervised_train_gradient(&rule, &input, &target);
    stepped.backprop_train(&rule, &input, &target);
    let probe = [one(), one()];
    assert_eq!(trained.compute(&probe), stepped.compute(&probe));
}

#[test]
fn empty_input_and_target_do_not_panic() {
    let mut layer = FeedforwardLayer::new(3, 2, identity());
    let output = layer.compute(&[]);
    assert_eq!(output.len(), 2);
    assert_eq!(output[0].raw, 0);
    assert_eq!(output[1].raw, 0);
    let rule = PerceptronRule { rate: half() };
    layer.supervised_train(&rule, &[], &[]);
    let gd = GradientDescent { rate: half() };
    let upstream = layer.backprop_train(&gd, &[], &[]);
    assert_eq!(upstream.len(), 0);
    // with an empty target every missing component counts as zero
    layer.supervised_train(&rule, &[one(), one(), one()], &[]);
}

#[test]
fn empty_target_uses_zero_components() {
    // diff = 0 - output: training against an empty target pushes the
    // output toward zero
    let mut layer = FeedforwardLayer::new(1, 1, identity());
    let rule = PerceptronRule { rate: half() };
    layer.supervised_train(&rule, &[one()], &[]);
    let output = layer.compute(&[one()]);
    assert_eq!(output[0].raw, FX_SCALE / 2);
}

#[test]
fn long_input_is_truncated() {
    // only the first input_size components take part
    let layer = FeedforwardLayer::new(2, 1, identity());
    let short = layer.compute(&[one(), half()]);
    let long = layer.compute(&[one(), half(), Fx::from_raw(7 * FX_SCALE)]);
    assert_eq!(short, long);
}

#[test]
fn product_rounds_toward_zero() {
    let tiny = Fx::from_raw(-1);
    assert_eq!(tiny.mul(one()).raw, -1);
    assert_eq!(tiny.mul(Fx::from_raw(1)).raw, 0);
    assert_eq!(Fx::from_raw(-3 * FX_SCALE).mul(one()).raw, -3 * FX_SCALE);
    assert_eq!(Fx::from_raw(3).mul(half()).raw, 1);
    assert_eq!(Fx::from_raw(-3).mul(half()).raw, -1);
}

#[test]
fn generator_fills_weights_then_biases() {
    // a source that counts up shows the fill order: all inputs*outputs
    // weights first, row by row, then the biases
    let mut counter = QueueSource {
        values: (0..6).map(|k| Fx::from_raw(k * FX_SCALE)).collect(),
        position: 0,
    };
    // weights row-major: [0, 1], [2, 3]; biases [4, 5] (in whole units)
    let layer = FeedforwardLayer::new_from(2, 2, identity(), &mut counter);
    let output = layer.compute(&[one(), one()]);
    // output j = w(j,0) + w(j,1) + bias(j)
    assert_eq!(output[0].raw, (0 + 1 + 4) * FX_SCALE);
    assert_eq!(output[1].raw, (2 + 3 + 5) * FX_SCALE);
}

#[test]
fn queue_source_yields_in_order_then_zeros() {
    let mut source = QueueSource {
        values: vec![one(), half(), Fx::from_raw(-7)],
        position: 0,
    };
    assert_eq!(source.next_value(), one());
    assert_eq!(source.next_value(), half());
    assert_eq!(source.next_value(), Fx::from_raw(-7));
    assert_eq!(source.next_value(), zero());
    assert_eq!(source.next_value(), zero());
}

#[test]
fn constant_source_never_runs_dry() {
    let mut source = ConstantSource { value: half() };
    for _ in 0..10 {
        assert_eq!(source.next_value(), half());
    }
}
