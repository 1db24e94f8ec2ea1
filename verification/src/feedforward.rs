//! A fully-connected feedforward layer.
//!
//! The layer computes `Y = f(W*X + B)` where `X` is the input vector, `W`
//! the weight matrix (stored flattened, row-major), `B` the bias vector and
//! `f` the activation applied to every component. Training fits the entries
//! of `W` in place.

use vstd::prelude::*;
use crate::fixed::Fx;
use crate::fixed::FX_SCALE;
use crate::fixed::fits;
use crate::fixed::fx_mul;
use crate::fixed::vals;
use crate::activation::Activation;
use crate::training::PerceptronRule;
use crate::training::GradientDescent;

verus! {

/// A feedforward layer: every input is connected to every output.
///
/// `coeffs` holds the weight matrix flattened row-major: the weight from
/// input `i` to output `j` lives at flat index `j * inputs + i`. The number
/// of outputs is the length of `biases`.
pub struct FeedforwardLayer<A: Activation> {
    pub inputs: usize,
    pub coeffs: Vec<Fx>,
    pub biases: Vec<Fx>,
    pub activation: A,
}

impl<A: Activation> FeedforwardLayer<A> {
    /// Number of expected input components.
    pub open spec fn ins(&self) -> int {
        self.inputs as int
    }

    /// Number of output neurons: the length of the bias vector.
    pub open spec fn outs(&self) -> int {
        self.biases@.len() as int
    }

    /// Well-formedness: the flattened weight matrix has exactly one entry
    /// per (output, input) pair.
    pub open spec fn wf(&self) -> bool {
        self.coeffs@.len() == self.ins() * self.outs()
    }

    /// Raw count of the weight from input `i` to output `j`.
    pub open spec fn w(&self, j: int, i: int) -> int {
        self.coeffs@[j * self.ins() + i]@
    }

    /// Raw count of the bias of output `j`.
    pub open spec fn b(&self, j: int) -> int {
        self.biases@[j]@
    }

    /// The layer's activation.
    pub open spec fn act(&self) -> A {
        self.activation
    }

    /// How many input components take part: the shorter of the expected
    /// and the actual input length.
    pub open spec fn m_of(&self, input_len: int) -> int {
        if self.ins() <= input_len {
            self.ins()
        } else {
            input_len
        }
    }

    /// Pre-activation sum for output `j`, truncated to the first `k`
    /// inputs: `b(j) + sum of w(j, i) * x(i) for i < k`.
    pub open spec fn net_prefix(&self, x: Seq<int>, j: int, k: int) -> int
        decreases k,
    {
        if k <= 0 {
            self.b(j)
        } else {
            self.net_prefix(x, j, k - 1) + fx_mul(self.w(j, k - 1), x[k - 1])
        }
    }

    /// Full pre-activation sum for output `j`.
    pub open spec fn net(&self, x: Seq<int>, j: int) -> int {
        self.net_prefix(x, j, self.m_of(x.len() as int))
    }

    /// The activated output of the layer on input `x`, in raw counts.
    pub open spec fn compute_spec(&self, x: Seq<int>) -> Seq<int> {
        Seq::new(self.outs() as nat, |j: int| self.act().spec_value(self.net(x, j)))
    }

    /// All intermediate values of the forward pass fit the raw
    /// representation, and the activation may be applied to each sum.
    pub open spec fn compute_fits(&self, x: Seq<int>) -> bool {
        let m = self.m_of(x.len() as int);
        &&& forall|j: int, k: int|
            0 <= j < self.outs() && 0 <= k < m ==> fits(#[trigger] fx_mul(self.w(j, k), x[k]))
        &&& forall|j: int, k: int|
            0 <= j < self.outs() && 0 <= k <= m ==> fits(#[trigger] self.net_prefix(x, j, k))
        &&& forall|j: int|
            0 <= j < self.outs() ==> self.act().value_in_range(#[trigger] self.net(x, j))
    }

    /// The error of output `j` under the perceptron rule: target component
    /// minus activated output.
    pub open spec fn pdiff(&self, x: Seq<int>, t: Seq<int>, j: int) -> int {
        tgt(t, j) - self.act().spec_value(self.net(x, j))
    }

    /// The amount one perceptron step adds to the weight from input `i` to
    /// output `j`: `rate * (target(j) - output(j)) * x(i)`, multiplied left
    /// to right.
    pub open spec fn perceptron_step(
        &self,
        rate: int,
        x: Seq<int>,
        t: Seq<int>,
        j: int,
        i: int,
    ) -> int {
        fx_mul(fx_mul(rate, self.pdiff(x, t, j)), x[i])
    }

    /// All intermediate values of one perceptron step fit the raw
    /// representation.
    pub open spec fn perceptron_fits(&self, rate: int, x: Seq<int>, t: Seq<int>) -> bool {
        let m = self.m_of(x.len() as int);
        &&& self.compute_fits(x)
        &&& forall|j: int| 0 <= j < self.outs() ==> fits(#[trigger] self.pdiff(x, t, j))
        &&& forall|j: int|
            0 <= j < self.outs() ==> fits(#[trigger] fx_mul(rate, self.pdiff(x, t, j)))
        &&& forall|j: int, i: int|
            0 <= j < self.outs() && 0 <= i < m ==> fits(
                #[trigger] self.perceptron_step(rate, x, t, j, i),
            )
        &&& forall|j: int, i: int|
            0 <= j < self.outs() && 0 <= i < m ==> fits(
                self.w(j, i) + #[trigger] self.perceptron_step(rate, x, t, j, i),
            )
    }

    /// The activation derivative at the pre-activation sum of output `j`.
    pub open spec fn delta(&self, x: Seq<int>, j: int) -> int {
        self.act().spec_derivative(self.net(x, j))
    }

    /// The activated output `j`: what forward evaluation would produce.
    pub open spec fn avalue(&self, x: Seq<int>, j: int) -> int {
        self.act().spec_value(self.net(x, j))
    }

    /// The upstream error at input `i` after the first `k` output neurons
    /// have contributed: `x(i) - sum of w(j, i) * delta(j) for j < k`.
    ///
    /// Note the sum is subtracted from the raw input component, not from
    /// zero: the returned signal is `input - sum`, not a bare gradient.
    pub open spec fn ret_prefix(&self, x: Seq<int>, i: int, k: int) -> int
        decreases k,
    {
        if k <= 0 {
            x[i]
        } else {
            self.ret_prefix(x, i, k - 1) - fx_mul(self.w(k - 1, i), self.delta(x, k - 1))
        }
    }

    /// The amount one gradient-descent step subtracts from the weight from
    /// input `i` to output `j`: `rate * x(i) * delta(j) * (activated(j) -
    /// target(j))`, multiplied left to right.
    pub open spec fn gradient_step(
        &self,
        rate: int,
        x: Seq<int>,
        t: Seq<int>,
        j: int,
        i: int,
    ) -> int {
        fx_mul(
            fx_mul(fx_mul(rate, x[i]), self.delta(x, j)),
            self.avalue(x, j) - tgt(t, j),
        )
    }

    /// All intermediate values of one gradient-descent step fit the raw
    /// representation, and the activation derivative may be taken at each
    /// pre-activation sum.
    pub open spec fn gradient_fits(&self, rate: int, x: Seq<int>, t: Seq<int>) -> bool {
        let m = self.m_of(x.len() as int);
        &&& self.compute_fits(x)
        &&& forall|j: int|
            0 <= j < self.outs() ==> self.act().derivative_in_range(#[trigger] self.net(x, j))
        &&& forall|j: int| 0 <= j < self.outs() ==> fits(#[trigger] self.avalue(x, j) - tgt(t, j))
        &&& forall|j: int, i: int|
            0 <= j < self.outs() && 0 <= i < m ==> fits(
                #[trigger] fx_mul(self.w(j, i), self.delta(x, j)),
            )
        &&& forall|i: int, k: int|
            0 <= i < m && 0 <= k <= self.outs() ==> fits(#[trigger] self.ret_prefix(x, i, k))
        &&& forall|i: int| 0 <= i < m ==> fits(#[trigger] fx_mul(rate, x[i]))
        &&& forall|j: int, i: int|
            0 <= j < self.outs() && 0 <= i < m ==> fits(
                #[trigger] fx_mul(fx_mul(rate, x[i]), self.delta(x, j)),
            )
        &&& forall|j: int, i: int|
            0 <= j < self.outs() && 0 <= i < m ==> fits(
                #[trigger] self.gradient_step(rate, x, t, j, i),
            )
        &&& forall|j: int, i: int|
            0 <= j < self.outs() && 0 <= i < m ==> fits(
                self.w(j, i) - #[trigger] self.gradient_step(rate, x, t, j, i),
            )
    }

    /// Creates a layer with every weight set to one and every bias set to
    /// zero.
    pub fn new(inputs: usize, outputs: usize, activation: A) -> (r: FeedforwardLayer<A>)
        requires
            inputs * outputs <= usize::MAX,
        ensures
            r.wf(),
            r.ins() == inputs,
            r.outs() == outputs,
            forall|j: int, i: int|
                0 <= j < outputs && 0 <= i < inputs ==> #[trigger] r.w(j, i) == FX_SCALE,
            forall|j: int| 0 <= j < outputs ==> #[trigger] r.b(j) == 0,
            r.act() == activation,
    {
        let n = inputs * outputs;
        let coeffs = filled(Fx::one(), n);
        let biases = filled(Fx::zero(), outputs);
        let r = FeedforwardLayer { inputs, coeffs, biases, activation };
        proof {
            assert forall|j: int, i: int|
                0 <= j < outputs && 0 <= i < inputs implies #[trigger] r.w(j, i) == FX_SCALE by {
                lemma_flat_index(inputs as int, outputs as int, j, i);
                assert(outputs * inputs == inputs * outputs) by (nonlinear_arith);
                let idx = j * (inputs as int) + i;
                assert(0 <= idx < n);
                assert(r.coeffs@[idx]@ == FX_SCALE);
            }
        }
        r
    }

    /// Creates a layer whose weights and biases are drawn from the given
    /// source, one value per entry: all `inputs * outputs` weights first,
    /// row by row, then all `outputs` biases. The source is advanced past
    /// exactly the `inputs * outputs + outputs` values the layer took.
    pub fn new_from<G: ValueSource>(
        inputs: usize,
        outputs: usize,
        activation: A,
        generator: &mut G,
    ) -> (r: FeedforwardLayer<A>)
        requires
            inputs * outputs <= usize::MAX,
        ensures
            r.wf(),
            r.ins() == inputs,
            r.outs() == outputs,
            r.act() == activation,
            forall|j: int, i: int|
                0 <= j < outputs && 0 <= i < inputs ==> #[trigger] r.w(j, i) == old(
                    generator,
                ).value_at(j * inputs + i),
            forall|j: int|
                0 <= j < outputs ==> #[trigger] r.b(j) == old(generator).value_at(
                    inputs * outputs + j,
                ),
            forall|k: int|
                0 <= k ==> #[trigger] final(generator).value_at(k) == old(generator).value_at(
                    k + inputs * outputs + outputs,
                ),
    {
        let ghost g0 = *generator;
        let n = inputs * outputs;
        let mut coeffs: Vec<Fx> = Vec::new();
        for k in 0..n
            invariant
                coeffs@.len() == k,
                forall|q: int| 0 <= q < k ==> (#[trigger] coeffs@[q])@ == g0.value_at(q),
                forall|q: int|
                    0 <= q ==> #[trigger] generator.value_at(q) == g0.value_at(q + k),
        {
            coeffs.push(generator.next_value());
        }
        let mut biases: Vec<Fx> = Vec::new();
        for k in 0..outputs
            invariant
                n == inputs * outputs,
                biases@.len() == k,
                forall|q: int| 0 <= q < k ==> (#[trigger] biases@[q])@ == g0.value_at(n + q),
                forall|q: int|
                    0 <= q ==> #[trigger] generator.value_at(q) == g0.value_at(q + n + k),
        {
            biases.push(generator.next_value());
        }
        let r = FeedforwardLayer { inputs, coeffs, biases, activation };
        proof {
            assert(g0 == *old(generator));
            assert forall|j: int, i: int|
                0 <= j < outputs && 0 <= i < inputs implies #[trigger] r.w(j, i) == g0.value_at(
                j * inputs + i,
            ) by {
                lemma_flat_index(inputs as int, outputs as int, j, i);
                let idx = j * (inputs as int) + i;
                assert(0 <= idx < n);
                assert(r.coeffs@[idx]@ == g0.value_at(idx));
            }
        }
        r
    }

    /// Forward evaluation: the activated weighted sums, one per output
    /// neuron.
    ///
    /// Only the first `min(input_size, input.len())` input components take
    /// part in each sum: a shorter input contributes nothing beyond its
    /// length, and a longer one is truncated. The layer itself is not
    /// changed.
    pub fn compute(&self, input: &[Fx]) -> (r: Vec<Fx>)
        requires
            self.wf(),
            self.compute_fits(vals(input@)),
        ensures
            r@.len() == self.outs(),
            vals(r@) == self.compute_spec(vals(input@)),
    {
        let ghost x = vals(input@);
        let m = if self.inputs <= input.len() {
            self.inputs
        } else {
            input.len()
        };
        let outs = self.biases.len();
        let num_weights = self.coeffs.len();
        let mut r: Vec<Fx> = Vec::new();
        for j in 0..outs
            invariant
                self.wf(),
                self.compute_fits(x),
                x == vals(input@),
                m == self.m_of(x.len() as int),
                m <= input@.len(),
                m <= self.ins(),
                outs == self.outs(),
                num_weights == self.coeffs@.len(),
                r@.len() == j,
                forall|q: int|
                    0 <= q < j ==> (#[trigger] r@[q])@ == self.act().spec_value(self.net(x, q)),
        {
            let mut acc = self.biases[j];
            for i in 0..m
                invariant
                    self.wf(),
                    self.compute_fits(x),
                    x == vals(input@),
                    m == self.m_of(x.len() as int),
                    m <= input@.len(),
                    m <= self.ins(),
                    outs == self.outs(),
                    num_weights == self.coeffs@.len(),
                    j < outs,
                    acc@ == self.net_prefix(x, j as int, i as int),
            {
                proof {
                    lemma_flat_index(self.ins(), self.outs(), j as int, i as int);
                    assert(fits(fx_mul(self.w(j as int, i as int), x[i as int])));
                    assert(fits(self.net_prefix(x, j as int, i as int + 1)));
                }
                let idx = j * self.inputs + i;
                acc = acc.add(self.coeffs[idx].mul(input[i]));
            }
            proof {
                assert(acc@ == self.net(x, j as int));
            }
            r.push(self.activation.value(acc));
        }
        proof {
            assert(vals(r@) =~= self.compute_spec(x));
        }
        r
    }

    /// One step of the perceptron delta rule.
    ///
    /// Runs the forward pass, then adds `rate * (target(j) - output(j)) *
    /// input(i)` to the weight from input `i` to output `j`, for every
    /// in-range pair. A target component beyond `target.len()` counts as
    /// zero; input components beyond `min(input_size, input.len())` are not
    /// touched and touch nothing. Biases are left unchanged by this rule.
    pub fn supervised_train(&mut self, rule: &PerceptronRule, input: &[Fx], target: &[Fx])
        requires
            old(self).wf(),
            old(self).perceptron_fits(rule.rate@, vals(input@), vals(target@)),
        ensures
            final(self).wf(),
            final(self).ins() == old(self).ins(),
            final(self).outs() == old(self).outs(),
            final(self).act() == old(self).act(),
            forall|j: int| 0 <= j < old(self).outs() ==> final(self).b(j) == old(self).b(j),
            forall|j: int, i: int|
                0 <= j < old(self).outs() && 0 <= i < old(self).m_of(input@.len() as int)
                    ==> #[trigger] final(self).w(j, i) == old(self).w(j, i) + old(
                    self,
                ).perceptron_step(rule.rate@, vals(input@), vals(target@), j, i),
            forall|j: int, i: int|
                0 <= j < old(self).outs() && old(self).m_of(input@.len() as int) <= i < old(
                    self,
                ).ins() ==> #[trigger] final(self).w(j, i) == old(self).w(j, i),
    {
        let ghost orig: FeedforwardLayer<A> = *self;
        let ghost x = vals(input@);
        let ghost t = vals(target@);
        let out = self.compute(input);
        let m = if self.inputs <= input.len() {
            self.inputs
        } else {
            input.len()
        };
        let outs = self.biases.len();
        let num_weights = self.coeffs.len();
        for j in 0..outs
            invariant
                orig.wf(),
                orig.perceptron_fits(rule.rate@, x, t),
                x == vals(input@),
                t == vals(target@),
                m == orig.m_of(x.len() as int),
                m <= input@.len(),
                m <= orig.ins(),
                outs == orig.outs(),
                num_weights == self.coeffs@.len(),
                self.inputs == orig.inputs,
                self.biases == orig.biases,
                self.activation == orig.activation,
                self.coeffs@.len() == orig.coeffs@.len(),
                out@.len() == orig.outs(),
                vals(out@) == orig.compute_spec(x),
                forall|j2: int, i2: int|
                    0 <= j2 < j && 0 <= i2 < m ==> #[trigger] self.w(j2, i2) == orig.w(j2, i2)
                        + orig.perceptron_step(rule.rate@, x, t, j2, i2),
                forall|j2: int, i2: int|
                    j <= j2 < outs && 0 <= i2 < m ==> #[trigger] self.w(j2, i2) == orig.w(j2, i2),
                forall|j2: int, i2: int|
                    0 <= j2 < outs && m <= i2 < orig.ins() ==> #[trigger] self.w(j2, i2) == orig.w(
                        j2,
                        i2,
                    ),
        {
            proof {
                assert(fits(orig.pdiff(x, t, j as int)));
                assert(fits(fx_mul(rule.rate@, orig.pdiff(x, t, j as int))));
            }
            let tj = if j < target.len() {
                target[j]
            } else {
                Fx::zero()
            };
            proof {
                assert(tj@ == tgt(t, j as int));
                assert(out@[j as int]@ == orig.compute_spec(x)[j as int]);
            }
            let diff = tj.sub(out[j]);
            proof {
                assert(diff@ == orig.pdiff(x, t, j as int));
            }
            let rdiff = rule.rate.mul(diff);
            for i in 0..m
                invariant
                    orig.wf(),
                    orig.perceptron_fits(rule.rate@, x, t),
                    x == vals(input@),
                    t == vals(target@),
                    m == orig.m_of(x.len() as int),
                    m <= input@.len(),
                    m <= orig.ins(),
                    outs == orig.outs(),
                    num_weights == self.coeffs@.len(),
                    self.inputs == orig.inputs,
                    self.biases == orig.biases,
                    self.activation == orig.activation,
                    self.coeffs@.len() == orig.coeffs@.len(),
                    j < outs,
                    rdiff@ == fx_mul(rule.rate@, orig.pdiff(x, t, j as int)),
                    forall|j2: int, i2: int|
                        0 <= j2 < j && 0 <= i2 < m ==> #[trigger] self.w(j2, i2) == orig.w(j2, i2)
                            + orig.perceptron_step(rule.rate@, x, t, j2, i2),
                    forall|i2: int|
                        0 <= i2 < i ==> #[trigger] self.w(j as int, i2) == orig.w(j as int, i2)
                            + orig.perceptron_step(rule.rate@, x, t, j as int, i2),
                    forall|i2: int|
                        i <= i2 < m ==> #[trigger] self.w(j as int, i2) == orig.w(j as int, i2),
                    forall|j2: int, i2: int|
                        j < j2 < outs && 0 <= i2 < m ==> #[trigger] self.w(j2, i2) == orig.w(
                            j2,
                            i2,
                        ),
                    forall|j2: int, i2: int|
                        0 <= j2 < outs && m <= i2 < orig.ins() ==> #[trigger] self.w(j2, i2)
                            == orig.w(j2, i2),
            {
                proof {
                    lemma_flat_index(orig.ins(), orig.outs(), j as int, i as int);
                    assert(fits(orig.perceptron_step(rule.rate@, x, t, j as int, i as int)));
                    assert(fits(
                        orig.w(j as int, i as int) + orig.perceptron_step(
                            rule.rate@,
                            x,
                            t,
                            j as int,
                            i as int,
                        ),
                    ));
                    assert(self.w(j as int, i as int) == orig.w(j as int, i as int));
                }
                let ghost before = *self;
                let idx = j * self.inputs + i;
                let delta_w = rdiff.mul(input[i]);
                let updated = self.coeffs[idx].add(delta_w);
                self.coeffs[idx] = updated;
                proof {
                    assert(self.coeffs@ == before.coeffs@.update(
                        j as int * orig.ins() + i as int,
                        updated,
                    ));
                    assert forall|j2: int, i2: int|
                        0 <= j2 < outs && 0 <= i2 < orig.ins() && !(j2 == j as int && i2
                            == i as int) implies #[trigger] self.w(j2, i2) == before.w(j2, i2) by {
                        lemma_flat_index(orig.ins(), orig.outs(), j2, i2);
                        lemma_flat_index_ne(orig.ins(), j2, i2, j as int, i as int);
                    }
                    assert(self.w(j as int, i as int) == orig.w(j as int, i as int)
                        + orig.perceptron_step(rule.rate@, x, t, j as int, i as int));
                }
            }
        }
        proof {
            assert(orig == *old(self));
        }
    }

    /// One step of gradient descent, returning the error signal for an
    /// upstream layer.
    ///
    /// Computes the pre-activation sums as forward evaluation does, takes
    /// the activation derivative `delta(j)` at each, then subtracts `rate *
    /// input(i) * delta(j) * (activated(j) - target(j))` from the weight of
    /// every in-range pair. The returned vector starts as a copy of the
    /// input and has `w(j, i) * delta(j)` subtracted from component `i` for
    /// every in-range pair, using the weights from before the update; its
    /// length always equals `input.len()`. A target component beyond
    /// `target.len()` counts as zero. Biases are never updated by this
    /// routine.
    pub fn backprop_train(
        &mut self,
        rule: &GradientDescent,
        input: &[Fx],
        target: &[Fx],
    ) -> (r: Vec<Fx>)
        requires
            old(self).wf(),
            old(self).gradient_fits(rule.rate@, vals(input@), vals(target@)),
        ensures
            final(self).wf(),
            final(self).ins() == old(self).ins(),
            final(self).outs() == old(self).outs(),
            final(self).act() == old(self).act(),
            forall|j: int| 0 <= j < old(self).outs() ==> final(self).b(j) == old(self).b(j),
            r@.len() == input@.len(),
            forall|i: int|
                0 <= i < old(self).m_of(input@.len() as int) ==> (#[trigger] r@[i])@ == old(
                    self,
                ).ret_prefix(vals(input@), i, old(self).outs()),
            forall|i: int|
                old(self).m_of(input@.len() as int) <= i < input@.len() ==> #[trigger] r@[i]
                    == input@[i],
            forall|j: int, i: int|
                0 <= j < old(self).outs() && 0 <= i < old(self).m_of(input@.len() as int)
                    ==> #[trigger] final(self).w(j, i) == old(self).w(j, i) - old(
                    self,
                ).gradient_step(rule.rate@, vals(input@), vals(target@), j, i),
            forall|j: int, i: int|
                0 <= j < old(self).outs() && old(self).m_of(input@.len() as int) <= i < old(
                    self,
                ).ins() ==> #[trigger] final(self).w(j, i) == old(self).w(j, i),
    {
        let ghost orig: FeedforwardLayer<A> = *self;
        let ghost x = vals(input@);
        let ghost t = vals(target@);
        let m = if self.inputs <= input.len() {
            self.inputs
        } else {
            input.len()
        };
        let outs = self.biases.len();
        let num_weights = self.coeffs.len();
        let mut nets: Vec<Fx> = Vec::new();
        for j in 0..outs
            invariant
                orig.wf(),
                orig.gradient_fits(rule.rate@, x, t),
                *self == orig,
                x == vals(input@),
                m == orig.m_of(x.len() as int),
                m <= input@.len(),
                m <= orig.ins(),
                outs == orig.outs(),
                num_weights == self.coeffs@.len(),
                nets@.len() == j,
                forall|q: int| 0 <= q < j ==> (#[trigger] nets@[q])@ == orig.net(x, q),
        {
            let mut acc = self.biases[j];
            for i in 0..m
                invariant
                    orig.wf(),
                    orig.gradient_fits(rule.rate@, x, t),
                    *self == orig,
                    x == vals(input@),
                    m == orig.m_of(x.len() as int),
                    m <= input@.len(),
                    m <= orig.ins(),
                    outs == orig.outs(),
                    num_weights == self.coeffs@.len(),
                    j < outs,
                    acc@ == orig.net_prefix(x, j as int, i as int),
            {
                proof {
                    lemma_flat_index(orig.ins(), orig.outs(), j as int, i as int);
                    assert(fits(fx_mul(orig.w(j as int, i as int), x[i as int])));
                    assert(fits(orig.net_prefix(x, j as int, i as int + 1)));
                }
                let idx = j * self.inputs + i;
                acc = acc.add(self.coeffs[idx].mul(input[i]));
            }
            nets.push(acc);
        }
        let mut deltas: Vec<Fx> = Vec::new();
        let mut acts: Vec<Fx> = Vec::new();
        for j in 0..outs
            invariant
                orig.wf(),
                orig.gradient_fits(rule.rate@, x, t),
                *self == orig,
                x == vals(input@),
                outs == orig.outs(),
                nets@.len() == outs,
                forall|q: int| 0 <= q < outs ==> (#[trigger] nets@[q])@ == orig.net(x, q),
                deltas@.len() == j,
                forall|q: int| 0 <= q < j ==> (#[trigger] deltas@[q])@ == orig.delta(x, q),
                acts@.len() == j,
                forall|q: int| 0 <= q < j ==> (#[trigger] acts@[q])@ == orig.avalue(x, q),
        {
            deltas.push(self.activation.derivative(nets[j]));
            acts.push(self.activation.value(nets[j]));
        }
        let mut returned: Vec<Fx> = Vec::new();
        let in_len = input.len();
        for i in 0..in_len
            invariant
                in_len == input@.len(),
                returned@.len() == i,
                forall|q: int| 0 <= q < i ==> #[trigger] returned@[q] == input@[q],
        {
            returned.push(input[i]);
        }
        for j in 0..outs
            invariant
                orig.wf(),
                orig.gradient_fits(rule.rate@, x, t),
                x == vals(input@),
                t == vals(target@),
                m == orig.m_of(x.len() as int),
                m <= input@.len(),
                m <= orig.ins(),
                outs == orig.outs(),
                num_weights == self.coeffs@.len(),
                self.inputs == orig.inputs,
                self.biases == orig.biases,
                self.activation == orig.activation,
                self.coeffs@.len() == orig.coeffs@.len(),
                deltas@.len() == outs,
                forall|q: int| 0 <= q < outs ==> (#[trigger] deltas@[q])@ == orig.delta(x, q),
                acts@.len() == outs,
                forall|q: int| 0 <= q < outs ==> (#[trigger] acts@[q])@ == orig.avalue(x, q),
                returned@.len() == input@.len(),
                forall|i2: int|
                    0 <= i2 < m ==> (#[trigger] returned@[i2])@ == orig.ret_prefix(x, i2, j as int),
                forall|i2: int|
                    m <= i2 < input@.len() ==> #[trigger] returned@[i2] == input@[i2],
                forall|j2: int, i2: int|
                    0 <= j2 < j && 0 <= i2 < m ==> #[trigger] self.w(j2, i2) == orig.w(j2, i2)
                        - orig.gradient_step(rule.rate@, x, t, j2, i2),
                forall|j2: int, i2: int|
                    j <= j2 < outs && 0 <= i2 < m ==> #[trigger] self.w(j2, i2) == orig.w(j2, i2),
                forall|j2: int, i2: int|
                    0 <= j2 < outs && m <= i2 < orig.ins() ==> #[trigger] self.w(j2, i2) == orig.w(
                        j2,
                        i2,
                    ),
        {
            proof {
                assert(fits(orig.avalue(x, j as int) - tgt(t, j as int)));
            }
            let tj = if j < target.len() {
                target[j]
            } else {
                Fx::zero()
            };
            let err = acts[j].sub(tj);
            for i in 0..m
                invariant
                    orig.wf(),
                    orig.gradient_fits(rule.rate@, x, t),
                    x == vals(input@),
                    t == vals(target@),
                    m == orig.m_of(x.len() as int),
                    m <= input@.len(),
                    m <= orig.ins(),
                    outs == orig.outs(),
                    num_weights == self.coeffs@.len(),
                    self.inputs == orig.inputs,
                    self.biases == orig.biases,
                    self.activation == orig.activation,
                    self.coeffs@.len() == orig.coeffs@.len(),
                    j < outs,
                    deltas@.len() == outs,
                    forall|q: int| 0 <= q < outs ==> (#[trigger] deltas@[q])@ == orig.delta(x, q),
                    err@ == orig.avalue(x, j as int) - tgt(t, j as int),
                    returned@.len() == input@.len(),
                    forall|i2: int|
                        0 <= i2 < i ==> (#[trigger] returned@[i2])@ == orig.ret_prefix(
                            x,
                            i2,
                            j as int + 1,
                        ),
                    forall|i2: int|
                        i <= i2 < m ==> (#[trigger] returned@[i2])@ == orig.ret_prefix(
                            x,
                            i2,
                            j as int,
                        ),
                    forall|i2: int|
                        m <= i2 < input@.len() ==> #[trigger] returned@[i2] == input@[i2],
                    forall|j2: int, i2: int|
                        0 <= j2 < j && 0 <= i2 < m ==> #[trigger] self.w(j2, i2) == orig.w(j2, i2)
                            - orig.gradient_step(rule.rate@, x, t, j2, i2),
                    forall|i2: int|
                        0 <= i2 < i ==> #[trigger] self.w(j as int, i2) == orig.w(j as int, i2)
                            - orig.gradient_step(rule.rate@, x, t, j as int, i2),
                    forall|i2: int|
                        i <= i2 < m ==> #[trigger] self.w(j as int, i2) == orig.w(j as int, i2),
                    forall|j2: int, i2: int|
                        j < j2 < outs && 0 <= i2 < m ==> #[trigger] self.w(j2, i2) == orig.w(
                            j2,
                            i2,
                        ),
                    forall|j2: int, i2: int|
                        0 <= j2 < outs && m <= i2 < orig.ins() ==> #[trigger] self.w(j2, i2)
                            == orig.w(j2, i2),
            {
                proof {
                    lemma_flat_index(orig.ins(), orig.outs(), j as int, i as int);
                    assert(self.w(j as int, i as int) == orig.w(j as int, i as int));
                    assert(fits(fx_mul(orig.w(j as int, i as int), orig.delta(x, j as int))));
                    assert(fits(orig.ret_prefix(x, i as int, j as int + 1)));
                    assert(fits(fx_mul(rule.rate@, x[i as int])));
                    assert(fits(fx_mul(fx_mul(rule.rate@, x[i as int]), orig.delta(x, j as int))));
                    assert(fits(orig.gradient_step(rule.rate@, x, t, j as int, i as int)));
                    assert(fits(
                        orig.w(j as int, i as int) - orig.gradient_step(
                            rule.rate@,
                            x,
                            t,
                            j as int,
                            i as int,
                        ),
                    ));
                }
                let idx = j * self.inputs + i;
                let wji = self.coeffs[idx];
                let cur = returned[i];
                returned[i] = cur.sub(wji.mul(deltas[j]));
                let step = rule.rate.mul(input[i]).mul(deltas[j]).mul(err);
                let ghost before = *self;
                self.coeffs[idx] = wji.sub(step);
                proof {
                    assert(returned@[i as int]@ == orig.ret_prefix(x, i as int, j as int + 1));
                    assert(step@ == orig.gradient_step(rule.rate@, x, t, j as int, i as int));
                    assert forall|j2: int, i2: int|
                        0 <= j2 < outs && 0 <= i2 < orig.ins() && !(j2 == j as int && i2
                            == i as int) implies #[trigger] self.w(j2, i2) == before.w(j2, i2) by {
                        lemma_flat_index(orig.ins(), orig.outs(), j2, i2);
                        lemma_flat_index_ne(orig.ins(), j2, i2, j as int, i as int);
                    }
                    assert(self.w(j as int, i as int) == orig.w(j as int, i as int)
                        - orig.gradient_step(rule.rate@, x, t, j as int, i as int));
                }
            }
        }
        proof {
            assert(orig == *old(self));
        }
        returned
    }

    /// Supervised training under the gradient-descent rule: exactly one
    /// backpropagation step, with the upstream error signal discarded.
    pub fn supervised_train_gradient(
        &mut self,
        rule: &GradientDescent,
        input: &[Fx],
        target: &[Fx],
    )
        requires
            old(self).wf(),
            old(self).gradient_fits(rule.rate@, vals(input@), vals(target@)),
        ensures
            final(self).wf(),
            final(self).ins() == old(self).ins(),
            final(self).outs() == old(self).outs(),
            final(self).act() == old(self).act(),
            forall|j: int| 0 <= j < old(self).outs() ==> final(self).b(j) == old(self).b(j),
            forall|j: int, i: int|
                0 <= j < old(self).outs() && 0 <= i < old(self).m_of(input@.len() as int)
                    ==> #[trigger] final(self).w(j, i) == old(self).w(j, i) - old(
                    self,
                ).gradient_step(rule.rate@, vals(input@), vals(target@), j, i),
            forall|j: int, i: int|
                0 <= j < old(self).outs() && old(self).m_of(input@.len() as int) <= i < old(
                    self,
                ).ins() ==> #[trigger] final(self).w(j, i) == old(self).w(j, i),
    {
        self.backprop_train(rule, input, target);
    }

    /// Number of expected input components.
    pub fn input_size(&self) -> (r: usize)
        ensures
            r == self.ins(),
    {
        self.inputs
    }

    /// Number of output neurons.
    pub fn output_size(&self) -> (r: usize)
        ensures
            r == self.outs(),
    {
        self.biases.len()
    }
}

/// A source of scalar values for seeding a layer, for example a seeded
/// pseudo-random number generator.
///
/// `value_at` names the stream the source will yield from its current
/// state; `next_value` hands that stream out one value per call, in order.
/// A layer built from a source is thereby pinned to the stream: callers
/// relying on a seeded generator get reproducible layers.
pub trait ValueSource: Sized {
    /// The raw count of the value the source will yield on its k-th next
    /// call, counting from zero.
    spec fn value_at(&self, k: int) -> int;

    /// Yields the head of the stream and advances the source past it.
    fn next_value(&mut self) -> (r: Fx)
        ensures
            r@ == old(self).value_at(0),
            forall|k: int|
                0 <= k ==> #[trigger] final(self).value_at(k) == old(self).value_at(k + 1),
    ;
}

/// A source that yields the same value forever.
pub struct ConstantSource {
    pub value: Fx,
}

impl ValueSource for ConstantSource {
    open spec fn value_at(&self, k: int) -> int {
        self.value@
    }

    fn next_value(&mut self) -> (r: Fx) {
        self.value
    }
}

/// A source that yields a fixed list of values in order, then zeros.
pub struct QueueSource {
    pub values: Vec<Fx>,
    pub position: usize,
}

impl ValueSource for QueueSource {
    open spec fn value_at(&self, k: int) -> int {
        if self.position + k < self.values@.len() {
            self.values@[self.position + k]@
        } else {
            0
        }
    }

    fn next_value(&mut self) -> (r: Fx) {
        if self.position < self.values.len() {
            let v = self.values[self.position];
            self.position = self.position + 1;
            v
        } else {
            Fx::zero()
        }
    }
}

/// A vector of `n` copies of `value`.
fn filled(value: Fx, n: usize) -> (r: Vec<Fx>)
    ensures
        r@.len() == n,
        forall|k: int| 0 <= k < n ==> (#[trigger] r@[k])@ == value@,
{
    let mut r: Vec<Fx> = Vec::new();
    for k in 0..n
        invariant
            r@.len() == k,
            forall|q: int| 0 <= q < k ==> (#[trigger] r@[q])@ == value@,
    {
        r.push(value);
    }
    r
}

/// The target component for output `j`: a missing entry counts as zero.
pub open spec fn tgt(t: Seq<int>, j: int) -> int {
    if 0 <= j < t.len() {
        t[j]
    } else {
        0
    }
}

/// A flat row-major index stays inside the matrix.
proof fn lemma_flat_index(ins: int, outs: int, j: int, i: int)
    requires
        0 <= j < outs,
        0 <= i < ins,
    ensures
        0 <= j * ins,
        j * ins + i < outs * ins,
        outs * ins == ins * outs,
    {
        assert(0 <= j * ins && j * ins + i < outs * ins && outs * ins == ins * outs)
            by (nonlinear_arith)
            requires
                0 <= j < outs,
                0 <= i < ins,
        ;
    }

/// An empty input is always admissible for forward evaluation when the
/// activation applies everywhere: every truncated sum collapses to a bias,
/// which fits by construction, so `compute` on an empty input cannot be
/// refused.
pub proof fn lemma_compute_fits_empty<A: Activation>(l: FeedforwardLayer<A>, x: Seq<int>)
    requires
        x.len() == 0,
        forall|y: int| #[trigger] l.act().value_in_range(y),
    ensures
        l.compute_fits(x),
{
    assert(l.m_of(x.len() as int) == 0);
    assert forall|j: int, k: int|
        0 <= j < l.outs() && 0 <= k <= 0 implies fits(#[trigger] l.net_prefix(x, j, k)) by {
        assert(l.net_prefix(x, j, 0) == l.b(j));
    }
}

/// Forward evaluation is pure: its contract pins the result of `compute`
/// to a function of the layer and the input alone, so two evaluations on
/// the same layer and the same input yield identical results.
pub proof fn lemma_compute_pure<A: Activation>(
    l: FeedforwardLayer<A>,
    x: Seq<int>,
    r1: Seq<int>,
    r2: Seq<int>,
)
    requires
        r1 == l.compute_spec(x),
        r2 == l.compute_spec(x),
    ensures
        r1 == r2,
{
}

/// With every weight `wv`, every bias `bv` and an activation whose value
/// function is the identity, each output on a constant input `c` of full
/// length is `bv + input_size * (wv * c)`, in raw units.
pub proof fn lemma_compute_uniform<A: Activation>(
    l: FeedforwardLayer<A>,
    x: Seq<int>,
    wv: int,
    bv: int,
    c: int,
)
    requires
        l.wf(),
        forall|y: int| #[trigger] l.act().spec_value(y) == y,
        forall|j: int, i: int|
            0 <= j < l.outs() && 0 <= i < l.ins() ==> #[trigger] l.w(j, i) == wv,
        forall|j: int| 0 <= j < l.outs() ==> #[trigger] l.b(j) == bv,
        x.len() == l.ins(),
        forall|i: int| 0 <= i < x.len() ==> #[trigger] x[i] == c,
    ensures
        forall|j: int|
            0 <= j < l.outs() ==> #[trigger] l.compute_spec(x)[j] == bv + l.ins() * fx_mul(wv, c),
{
    assert forall|j: int|
        0 <= j < l.outs() implies #[trigger] l.compute_spec(x)[j] == bv + l.ins() * fx_mul(
        wv,
        c,
    ) by {
        lemma_net_prefix_uniform(l, x, wv, bv, c, j, l.ins());
    }
}

/// With every weight one, every bias zero and an activation whose value
/// function is the identity, each output on an all-ones input of full
/// length is the number of inputs: the sum of `input_size` ones.
pub proof fn lemma_compute_all_ones<A: Activation>(l: FeedforwardLayer<A>, x: Seq<int>)
    requires
        l.wf(),
        forall|y: int| #[trigger] l.act().spec_value(y) == y,
        forall|j: int, i: int|
            0 <= j < l.outs() && 0 <= i < l.ins() ==> #[trigger] l.w(j, i) == FX_SCALE,
        forall|j: int| 0 <= j < l.outs() ==> #[trigger] l.b(j) == 0,
        x.len() == l.ins(),
        forall|i: int| 0 <= i < x.len() ==> #[trigger] x[i] == FX_SCALE,
    ensures
        forall|j: int|
            0 <= j < l.outs() ==> #[trigger] l.compute_spec(x)[j] == l.ins() * FX_SCALE,
{
    lemma_compute_uniform(l, x, FX_SCALE as int, 0, FX_SCALE as int);
    assert(fx_mul(FX_SCALE as int, FX_SCALE as int) == FX_SCALE as int);
}

/// The degenerate fixed point of perceptron training: when every target
/// component equals the activated output, every weight increment is zero,
/// so by `supervised_train`'s contract the layer is left unchanged and
/// repeating the same call changes nothing. (Away from this fixed point the
/// rules are not idempotent: a step moves the outputs, so the next step
/// starts from a different error.)
pub proof fn lemma_zero_error_is_perceptron_fixed_point<A: Activation>(
    l: FeedforwardLayer<A>,
    rate: int,
    x: Seq<int>,
    t: Seq<int>,
)
    requires
        forall|j: int| 0 <= j < l.outs() ==> #[trigger] l.pdiff(x, t, j) == 0,
    ensures
        forall|j: int, i: int|
            0 <= j < l.outs() && 0 <= i < l.m_of(x.len() as int)
                ==> #[trigger] l.perceptron_step(rate, x, t, j, i) == 0,
{
    assert forall|j: int, i: int|
        0 <= j < l.outs() && 0 <= i < l.m_of(x.len() as int)
            implies #[trigger] l.perceptron_step(rate, x, t, j, i) == 0 by {
        assert(fx_mul(rate, 0) == 0);
        assert(fx_mul(0, x[i]) == 0);
    }
}

/// The degenerate fixed point of gradient descent: when every target
/// component equals the activated output, every weight decrement is zero,
/// so by `backprop_train`'s contract the weights are left unchanged.
pub proof fn lemma_zero_error_is_gradient_fixed_point<A: Activation>(
    l: FeedforwardLayer<A>,
    rate: int,
    x: Seq<int>,
    t: Seq<int>,
)
    requires
        forall|j: int| 0 <= j < l.outs() ==> #[trigger] l.avalue(x, j) == tgt(t, j),
    ensures
        forall|j: int, i: int|
            0 <= j < l.outs() && 0 <= i < l.m_of(x.len() as int)
                ==> #[trigger] l.gradient_step(rate, x, t, j, i) == 0,
{
    assert forall|j: int, i: int|
        0 <= j < l.outs() && 0 <= i < l.m_of(x.len() as int)
            implies #[trigger] l.gradient_step(rate, x, t, j, i) == 0 by {
        assert(fx_mul(fx_mul(fx_mul(rate, x[i]), l.delta(x, j)), 0) == 0);
    }
}

/// Truncated net sums over a uniform layer and a constant input take the
/// closed form `bv + k * (wv * c)`.
proof fn lemma_net_prefix_uniform<A: Activation>(
    l: FeedforwardLayer<A>,
    x: Seq<int>,
    wv: int,
    bv: int,
    c: int,
    j: int,
    k: int,
)
    requires
        l.wf(),
        forall|j2: int, i2: int|
            0 <= j2 < l.outs() && 0 <= i2 < l.ins() ==> #[trigger] l.w(j2, i2) == wv,
        forall|j2: int| 0 <= j2 < l.outs() ==> #[trigger] l.b(j2) == bv,
        x.len() == l.ins(),
        forall|i2: int| 0 <= i2 < x.len() ==> #[trigger] x[i2] == c,
        0 <= j < l.outs(),
        0 <= k <= l.ins(),
    ensures
        l.net_prefix(x, j, k) == bv + k * fx_mul(wv, c),
    decreases k,
{
    let p = fx_mul(wv, c);
    if k <= 0 {
        assert(l.net_prefix(x, j, 0) == bv);
    } else {
        lemma_net_prefix_uniform(l, x, wv, bv, c, j, k - 1);
        assert((k - 1) * p + p == k * p) by (nonlinear_arith);
    }
}

/// Distinct (output, input) pairs have distinct flat row-major indices.
proof fn lemma_flat_index_ne(ins: int, j1: int, i1: int, j2: int, i2: int)
    requires
        0 <= j1,
        0 <= j2,
        0 <= i1 < ins,
        0 <= i2 < ins,
        !(j1 == j2 && i1 == i2),
    ensures
        j1 * ins + i1 != j2 * ins + i2,
    {
        assert(j1 * ins + i1 != j2 * ins + i2) by (nonlinear_arith)
            requires
                0 <= j1,
                0 <= j2,
                0 <= i1 < ins,
                0 <= i2 < ins,
                !(j1 == j2 && i1 == i2),
        ;
    }

} // verus!
