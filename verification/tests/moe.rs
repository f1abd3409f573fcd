//! Expert layers: who computes what, and how the results are mixed.
use rand::rngs::StdRng;
use rand::{Rng, SeedableRng};
use rusting_brain::error::NetworkError;
use rusting_brain::losses::{Activation, Loss};
use rusting_brain::matrix::{Gemm, Matrix};
use rusting_brain::mixing::{accumulate, scatter};
use rusting_brain::moe::{
    group, MoeConfig, MoeLayer, Routing, DEFAULT_AUX_LOSS_WEIGHT, DEFAULT_ROUTER_Z_LOSS_WEIGHT,
    UNROUTED,
};

// -- Products ----------------------------------------------------------------

fn run(gemm: Gemm, a: &Matrix<f32>, b: &Matrix<f32>, c: &mut Matrix<f32>) {
    for i in 0..gemm.m {
        for j in 0..gemm.n {
            let sum: f32 = (0..gemm.k)
                .map(|l| {
                    a.data[i * gemm.a_row + l * gemm.a_col]
                        * b.data[l * gemm.b_row + j * gemm.b_col]
                })
                .sum();
            let target = &mut c.data[i * gemm.c_row + j * gemm.c_col];
            *target = if gemm.accumulate { *target + sum } else { sum };
        }
    }
}

fn random(rows: usize, cols: usize, rng: &mut StdRng) -> Matrix<f32> {
    let data = (0..rows * cols).map(|_| rng.gen_range(-1.0..1.0)).collect();
    Matrix::from_vec(rows, cols, data)
}

/// The weights a fresh layer starts from, smaller the more inputs it adds up.
fn weights(rows: usize, cols: usize, rng: &mut StdRng) -> Matrix<f32> {
    let bound = (cols as f32).sqrt().recip();
    let data = (0..rows * cols).map(|_| rng.gen_range(-bound..bound)).collect();
    Matrix::from_vec(rows, cols, data)
}

fn copy(matrix: &Matrix<f32>) -> Matrix<f32> {
    Matrix::from_vec(matrix.rows, matrix.cols, matrix.data.clone())
}

#[test]
fn dot_multiplies_row_major_matrices() {
    let left = Matrix::from_vec(2, 3, vec![1.0, 2.0, 3.0, 4.0, 5.0, 6.0]);
    let right = Matrix::from_vec(3, 2, vec![7.0, 8.0, 9.0, 10.0, 11.0, 12.0]);
    let mut output = Matrix::new(2, 2, 0.0);

    let gemm = left.dot(&right, &output);
    run(gemm, &left, &right, &mut output);

    assert_eq!(output.data, vec![58.0, 64.0, 139.0, 154.0]);
}

#[test]
fn transposed_operands_are_read_by_their_strides() {
    let left = Matrix::from_vec(2, 3, vec![1.0, 2.0, 3.0, 4.0, 5.0, 6.0]);
    let right = Matrix::from_vec(2, 3, vec![1.0, 0.0, 1.0, 0.0, 1.0, 0.0]);
    let mut output = Matrix::new(2, 2, 0.0);
    run(left.dot_rhs_transposed(&right, &output), &left, &right, &mut output);
    assert_eq!(output.data, vec![4.0, 2.0, 10.0, 5.0]);

    let mut output = Matrix::new(3, 3, 1.0);
    run(left.dot_self_transposed(&right, &output), &left, &right, &mut output);
    assert_eq!(output.data, vec![1.0, 4.0, 1.0, 2.0, 5.0, 2.0, 3.0, 6.0, 3.0]);

    let mut output = Matrix::new(3, 3, 1.0);
    run(left.dot_self_transposed_accumulate(&right, &output), &left, &right, &mut output);
    assert_eq!(output.data, vec![2.0, 5.0, 2.0, 3.0, 6.0, 3.0, 4.0, 7.0, 4.0]);
}

#[test]
fn columns_make_an_outer_product_and_a_projection() {
    let error = Matrix::from_vec(2, 1, vec![2.0, 3.0]);
    let input = Matrix::from_vec(3, 1, vec![1.0, 10.0, 100.0]);
    let mut output = Matrix::new(2, 3, 0.0);
    run(error.outer_product(&input, &output), &error, &input, &mut output);
    assert_eq!(output.data, vec![2.0, 20.0, 200.0, 3.0, 30.0, 300.0]);

    let weights = Matrix::from_vec(2, 3, vec![1.0, 2.0, 3.0, 4.0, 5.0, 6.0]);
    let mut output = Matrix::new(3, 1, 0.0);
    run(weights.dot_transpose_self(&error, &output), &weights, &error, &mut output);
    assert_eq!(output.data, vec![14.0, 19.0, 24.0]);
}

#[test]
fn rows_are_gathered_read_and_written() {
    let mut matrix = Matrix::from_vec(3, 2, vec![1, 2, 3, 4, 5, 6]);
    assert_eq!(matrix.gather_rows(&vec![2, 0, 2]).data, vec![5, 6, 1, 2, 5, 6]);
    assert_eq!(matrix.row(1), &[3, 4]);
    matrix.set(1, 0, 9);
    assert_eq!(matrix.get(1, 0), 9);
    matrix.copy_from_slice(&[7, 8, 9, 10, 11, 12]);
    assert_eq!(matrix.data, vec![7, 8, 9, 10, 11, 12]);
    matrix.zeros(0);
    assert_eq!(matrix.data, vec![0; 6]);
}

// -- Losses ------------------------------------------------------------------

#[test]
fn cross_entropy_with_softmax_delta_is_target_minus_prediction() {
    let delta = Loss::CrossEntropy.output_delta(
        &vec![0.2, 0.7, 0.1],
        &vec![0.0, 1.0, 0.0],
        Activation::Softmax,
        &|t: f32, p: f32| t - p,
        &|base: f32, _: f32| base * 100.0,
    );
    assert_eq!(delta, vec![-0.2, 0.3, -0.1]);
}

#[test]
fn an_unpaired_activation_keeps_its_derivative() {
    let delta = |loss: Loss, activation: Activation| {
        loss.output_delta(
            &vec![0.5f32],
            &vec![1.0],
            activation,
            &|t: f32, p: f32| t - p,
            &|base: f32, p: f32| base * p * (1.0 - p),
        )
    };
    assert_eq!(delta(Loss::Mse, Activation::Sigmoid), vec![0.125]);
    assert_eq!(delta(Loss::BinaryCrossEntropy, Activation::Sigmoid), vec![0.5]);
    assert_eq!(delta(Loss::CrossEntropy, Activation::Sigmoid), vec![0.125]);
    assert!(Loss::CrossEntropy.cancels(Activation::Softmax));
    assert!(!Loss::BinaryCrossEntropy.cancels(Activation::Softmax));
}

// -- A layer in numbers ------------------------------------------------------

/// A gated feed-forward module with its gradients.
struct SwiGlu {
    weights: [Matrix<f32>; 3],
    grads: [Matrix<f32>; 3],
}

/// What an expert keeps of one pass.
struct Pass {
    input: Matrix<f32>,
    gate: Matrix<f32>,
    up: Matrix<f32>,
    hidden: Matrix<f32>,
}

/// `input * weight^T`.
fn project(input: &Matrix<f32>, weight: &Matrix<f32>) -> Matrix<f32> {
    let mut output = Matrix::new(input.rows, weight.rows, 0.0);
    run(input.dot_rhs_transposed(weight, &output), input, weight, &mut output);
    output
}

/// Adds a weight's gradient, and gives back the input's.
fn project_back(
    input: &Matrix<f32>,
    weight: &Matrix<f32>,
    grad: &mut Matrix<f32>,
    upstream: &Matrix<f32>,
) -> Matrix<f32> {
    run(upstream.dot_self_transposed_accumulate(input, grad), upstream, input, grad);
    let mut output = Matrix::new(input.rows, input.cols, 0.0);
    run(upstream.dot(weight, &output), upstream, weight, &mut output);
    output
}

fn sigmoid(x: f32) -> f32 {
    1.0 / (1.0 + (-x).exp())
}

impl SwiGlu {
    fn new(width: usize, inner: usize, rng: &mut StdRng) -> SwiGlu {
        let sizes = [(inner, width), (inner, width), (width, inner)];
        SwiGlu {
            weights: sizes.map(|(rows, cols)| weights(rows, cols, rng)),
            grads: sizes.map(|(rows, cols)| Matrix::new(rows, cols, 0.0)),
        }
    }

    fn forward(&self, input: Matrix<f32>) -> (Matrix<f32>, Pass) {
        let gate = project(&input, &self.weights[0]);
        let up = project(&input, &self.weights[1]);
        let hidden = Matrix::from_vec(
            gate.rows,
            gate.cols,
            gate.data.iter().zip(&up.data).map(|(g, u)| g * sigmoid(*g) * u).collect(),
        );
        let output = project(&hidden, &self.weights[2]);
        (output, Pass { input, gate, up, hidden })
    }

    fn backward(&mut self, pass: &Pass, upstream: &Matrix<f32>) -> Matrix<f32> {
        let [gate, up, down] = &mut self.grads;
        let grad_hidden = project_back(&pass.hidden, &self.weights[2], down, upstream);
        let mut grad_gate = Matrix::new(pass.gate.rows, pass.gate.cols, 0.0);
        let mut grad_up = Matrix::new(pass.gate.rows, pass.gate.cols, 0.0);
        for i in 0..grad_hidden.data.len() {
            let (g, u, h) = (pass.gate.data[i], pass.up.data[i], grad_hidden.data[i]);
            let s = sigmoid(g);
            grad_up.data[i] = h * g * s;
            grad_gate.data[i] = h * u * (s + g * s * (1.0 - s));
        }
        let mut grad = project_back(&pass.input, &self.weights[0], gate, &grad_gate);
        let other = project_back(&pass.input, &self.weights[1], up, &grad_up);
        accumulate(&mut grad, &other, &|a: f32, b: f32| a + b);
        grad
    }
}

struct Layer {
    moe: MoeLayer,
    router: Matrix<f32>,
    router_grad: Matrix<f32>,
    experts: Vec<SwiGlu>,
    shared: Option<SwiGlu>,
}

struct Cache {
    input: Matrix<f32>,
    probabilities: Matrix<f32>,
    log_sum_exp: Vec<f32>,
    routing: Routing,
    gates: Vec<f32>,
    outputs: Vec<Option<Matrix<f32>>>,
    passes: Vec<Option<Pass>>,
    shared: Option<Pass>,
    aux_loss: f32,
    z_loss: f32,
}

fn layer(config: MoeConfig, d_model: usize, seed: u64) -> Layer {
    let mut rng = StdRng::seed_from_u64(seed);
    let expert = 3 * d_model * config.d_ff;
    let moe = MoeLayer::new(d_model, config, config.num_experts * d_model, expert).unwrap();
    let router = weights(config.num_experts, d_model, &mut rng);
    let experts =
        (0..config.num_experts).map(|_| SwiGlu::new(d_model, config.d_ff, &mut rng)).collect();
    let shared = if config.shared_expert {
        Some(SwiGlu::new(d_model, config.d_ff, &mut rng))
    } else {
        None
    };
    let router_grad = Matrix::new(config.num_experts, d_model, 0.0);
    Layer { moe, router, router_grad, experts, shared }
}

fn scale(gate: f32, value: f32) -> f32 {
    gate * value
}

fn sum(a: f32, b: f32) -> f32 {
    a + b
}

impl Layer {
    fn weight(bits: u32) -> f32 {
        f32::from_bits(bits)
    }

    fn forward_train(&self, input: &Matrix<f32>) -> Result<(Matrix<f32>, Cache), NetworkError> {
        let config = &self.moe.config;
        let logits = if input.cols == self.moe.d_model() {
            project(input, &self.router)
        } else {
            Matrix::new(input.rows, config.num_experts, 0.0)
        };
        let mut probabilities = copy(&logits);
        let mut log_sum_exp = Vec::new();
        for row in 0..logits.rows {
            let source = logits.row(row);
            let max = source.iter().copied().fold(f32::NEG_INFINITY, f32::max);
            let total: f32 = source.iter().map(|v| (v - max).exp()).sum();
            log_sum_exp.push(max + total.ln());
            for c in 0..logits.cols {
                probabilities.set(row, c, (source[c] - max).exp() / total);
            }
        }
        let keys = Matrix::from_vec(
            probabilities.rows,
            probabilities.cols,
            probabilities.data.iter().map(|p| p.to_bits()).collect(),
        );
        let routing = self.moe.forward_train(input.cols, &keys, &vec![true; input.rows])?;
        let mut gates = vec![0.0; routing.assignments.len()];
        for token in 0..routing.tokens {
            let slots = token * routing.top_k..(token + 1) * routing.top_k;
            let chosen = |slot: usize| probabilities.get(token, routing.assignments[slot]);
            let total: f32 = slots.clone().map(chosen).sum();
            for slot in slots {
                gates[slot] = chosen(slot) / total;
            }
        }
        let mut outputs = Vec::new();
        let mut passes = Vec::new();
        for (expert, tokens) in self.experts.iter().zip(&routing.expert_tokens) {
            if tokens.is_empty() {
                outputs.push(None);
                passes.push(None);
            } else {
                let (output, pass) = expert.forward(input.gather_rows(tokens));
                outputs.push(Some(output));
                passes.push(Some(pass));
            }
        }
        let shared = self.shared.as_ref().map(|shared| shared.forward(copy(input)));
        let (shared_output, shared) = match shared {
            Some((output, pass)) => (Some(output), Some(pass)),
            None => (None, None),
        };
        let output =
            routing.combine(&outputs, &gates, &shared_output, input.cols, 0.0, &scale, &sum);

        let tokens = input.rows as f32;
        let slots = tokens * config.experts_per_token as f32;
        let mut aux_loss = 0.0;
        for expert in 0..config.num_experts {
            let load = routing.expert_tokens[expert].len() as f32 / slots;
            let mass: f32 = (0..input.rows).map(|t| probabilities.get(t, expert)).sum();
            aux_loss += load * mass / tokens;
        }
        aux_loss *= config.num_experts as f32 * Layer::weight(config.aux_loss_weight);
        let squares: f32 = log_sum_exp.iter().map(|v| v * v).sum();
        let z_loss = Layer::weight(config.router_z_loss_weight) * squares / tokens;
        let input = copy(input);
        Ok((
            output,
            Cache {
                input,
                probabilities,
                log_sum_exp,
                routing,
                gates,
                outputs,
                passes,
                shared,
                aux_loss,
                z_loss,
            },
        ))
    }

    fn forward(&self, input: &Matrix<f32>) -> Matrix<f32> {
        self.forward_train(input).unwrap().0
    }

    fn backward(&mut self, cache: &Cache, grad_output: &Matrix<f32>) -> Matrix<f32> {
        let config = self.moe.config;
        let routing = &cache.routing;
        let shared = match (&mut self.shared, &cache.shared) {
            (Some(shared), Some(pass)) => Some(shared.backward(pass, grad_output)),
            _ => None,
        };
        let mut parts = Vec::new();
        for (expert, module) in self.experts.iter_mut().enumerate() {
            let rows = routing.upstream(expert, &cache.gates, grad_output, &scale);
            parts.push(rows.map(|rows| {
                module.backward(cache.passes[expert].as_ref().unwrap(), &rows)
            }));
        }
        let grad_gates = routing.gate_gradients(0.0, &|token: usize, expert: usize, row: usize| {
            let made = cache.outputs[expert].as_ref().unwrap().row(row);
            grad_output.row(token).iter().zip(made).map(|(g, o)| g * o).sum::<f32>()
        });
        let tokens = cache.input.rows as f32;
        let grad_logits = routing.logit_gradients(0.0, &|token: usize| {
            let probabilities = cache.probabilities.row(token);
            let slots: Vec<usize> =
                (token * routing.top_k..(token + 1) * routing.top_k).collect();
            let chosen = |slot: usize| probabilities[routing.assignments[slot]];
            let total: f32 = slots.iter().map(|&slot| chosen(slot)).sum();
            let weighted: f32 = slots.iter().map(|&slot| grad_gates[slot] * chosen(slot)).sum();
            let mut grads = vec![0.0; config.num_experts];
            for &slot in &slots {
                grads[routing.assignments[slot]] +=
                    grad_gates[slot] / total - weighted / (total * total);
            }
            let factor =
                Layer::weight(config.aux_loss_weight) * config.num_experts as f32 / tokens;
            for expert in 0..config.num_experts {
                let load = routing.expert_tokens[expert].len() as f32
                    / (tokens * routing.top_k as f32);
                grads[expert] += factor * load;
            }
            let dot: f32 = probabilities.iter().zip(&grads).map(|(p, g)| p * g).sum();
            let z = 2.0 * Layer::weight(config.router_z_loss_weight) * cache.log_sum_exp[token]
                / tokens;
            (0..config.num_experts)
                .map(|e| probabilities[e] * (grads[e] - dot) + z * probabilities[e])
                .collect()
        });
        let router =
            project_back(&cache.input, &self.router, &mut self.router_grad, &grad_logits);
        routing.input_gradient(&parts, &shared, &router, 0.0, &sum)
    }
}

/// A router that sends the one-hot row `t` to expert `t`.
fn one_hot_router(layer: &mut Layer, strength: f32) {
    layer.router.zeros(0.0);
    for expert in 0..layer.router.rows {
        layer.router.set(expert, expert % layer.router.cols, strength);
    }
}

fn one_hot_rows(rows: &[usize], width: usize) -> Matrix<f32> {
    let mut input = Matrix::new(rows.len(), width, 0.0);
    for (row, &column) in rows.iter().enumerate() {
        input.set(row, column, 1.0);
    }
    input
}

fn off() -> u32 {
    0.0f32.to_bits()
}

#[test]
fn output_keeps_the_model_dimension() {
    let moe = layer(MoeConfig::new(4, 2, 6), 8, 1);
    let output = moe.forward(&random(5, 8, &mut StdRng::seed_from_u64(1)));

    assert_eq!(output.rows, 5);
    assert_eq!(output.cols, 8);
}

#[test]
fn a_row_of_another_width_is_refused() {
    let moe = layer(MoeConfig::new(4, 2, 6), 8, 1);
    let refused = moe.forward_train(&Matrix::new(5, 7, 0.0));
    assert!(matches!(refused, Err(NetworkError::InvalidInput { expected: 8, actual: 7 })));
}

#[test]
fn invalid_top_k_is_rejected() {
    assert!(MoeConfig::new(4, 0, 6).validate().is_err());
    assert!(MoeConfig::new(4, 5, 6).validate().is_err());
    assert!(MoeConfig::new(0, 1, 6).validate().is_err());
}

#[test]
fn each_invalid_configuration_says_why() {
    let message = |config: MoeConfig| match config.validate() {
        Err(NetworkError::InvalidConfig(message)) => message,
        other => panic!("{other:?}"),
    };
    assert!(message(MoeConfig::new(0, 1, 6)).contains("expert"));
    assert!(message(MoeConfig::new(4, 5, 6)).contains('5'));
    assert!(message(MoeConfig::new(4, 2, 0)).contains("d_ff"));
    assert!(MoeConfig::new(4, 2, 6).validate().is_ok());
    let config = MoeConfig::new(4, 2, 6);
    assert_eq!(config.aux_loss_weight, DEFAULT_AUX_LOSS_WEIGHT);
    assert_eq!(config.router_z_loss_weight, DEFAULT_ROUTER_Z_LOSS_WEIGHT);
    assert_eq!(DEFAULT_AUX_LOSS_WEIGHT, 0.01f32.to_bits());
    assert_eq!(DEFAULT_ROUTER_Z_LOSS_WEIGHT, 0.001f32.to_bits());
    assert!(MoeLayer::new(8, MoeConfig::new(4, 5, 6), 32, 144).is_err());
}

#[test]
fn routing_picks_the_highest_probability_experts() {
    let moe = layer(MoeConfig::new(5, 2, 4), 4, 2);
    let probabilities = [0.1f32, 0.3, 0.05, 0.5, 0.05];
    let keys = Matrix::from_vec(1, 5, probabilities.iter().map(|p| p.to_bits()).collect());

    let assignments = moe.moe.route(&keys, &vec![true]);

    assert_eq!(assignments.len(), 2);
    assert_eq!(assignments[0], 3);
    assert_eq!(assignments[1], 1);
}

#[test]
fn ties_go_to_the_lower_expert_and_padding_nowhere() {
    let moe = layer(MoeConfig::new(3, 2, 4), 4, 2);
    let keys = Matrix::from_vec(2, 3, vec![5, 7, 7, 9, 9, 9]);
    assert_eq!(moe.moe.route(&keys, &vec![true, true]), vec![1, 2, 0, 1]);
    assert_eq!(moe.moe.route(&keys, &vec![true, false]), vec![1, 2, UNROUTED, UNROUTED]);
    let routing = moe.moe.forward_train(4, &keys, &vec![true, false]).unwrap();
    assert_eq!(routing.expert_tokens, vec![vec![], vec![0], vec![0]]);
    assert_eq!(routing.expert_slots, vec![vec![], vec![0], vec![1]]);
    assert_eq!(routing.routed_slots(), 2);
}

#[test]
fn gate_weights_sum_to_one_per_token() {
    for top_k in 1..=4 {
        let moe = layer(MoeConfig::new(4, top_k, 6), 8, 3);
        let input = random(7, 8, &mut StdRng::seed_from_u64(3));
        let (_, cache) = moe.forward_train(&input).unwrap();

        for token in 0..7 {
            let total: f32 = cache.gates[token * top_k..(token + 1) * top_k].iter().sum();
            assert!((total - 1.0).abs() < 1e-5, "top_k {top_k}: {total}");
        }
    }
}

#[test]
fn top_one_routing_uses_a_single_expert_per_token() {
    let moe = layer(MoeConfig::new(4, 1, 6), 8, 4);
    let input = random(6, 8, &mut StdRng::seed_from_u64(4));
    let (_, cache) = moe.forward_train(&input).unwrap();

    assert_eq!(cache.routing.assignments.len(), 6);
    for gate in &cache.gates {
        assert!((gate - 1.0).abs() < 1e-6);
    }
}

#[test]
fn every_token_reaches_exactly_top_k_experts() {
    let moe = layer(MoeConfig::new(6, 3, 4), 8, 5);
    let input = random(9, 8, &mut StdRng::seed_from_u64(5));
    let (_, cache) = moe.forward_train(&input).unwrap();

    let routed: usize = cache.routing.expert_tokens.iter().map(Vec::len).sum();
    assert_eq!(routed, 9 * 3);
}

#[test]
fn balanced_routing_reaches_the_minimum_of_the_load_balancing_loss() {
    let config = MoeConfig::new(4, 1, 4).with_router_z_loss_weight(off());
    let mut balanced = layer(config, 4, 6);
    one_hot_router(&mut balanced, 30.0);
    let (_, cache) = balanced.forward_train(&one_hot_rows(&[0, 1, 2, 3], 4)).unwrap();

    let weight = Layer::weight(balanced.moe.config.aux_loss_weight);
    assert!((cache.aux_loss - weight).abs() < 1e-3, "balanced aux loss was {}", cache.aux_loss);
    for tokens in &cache.routing.expert_tokens {
        let fraction = tokens.len() as f32 / cache.routing.routed_slots() as f32;
        assert!((fraction - 0.25).abs() < 1e-6);
    }
}

#[test]
fn imbalanced_routing_costs_more_than_balanced_routing() {
    let config = MoeConfig::new(4, 1, 4).with_router_z_loss_weight(off());
    let mut collapsed = layer(config, 4, 6);
    one_hot_router(&mut collapsed, 30.0);
    let (_, cache) = collapsed.forward_train(&one_hot_rows(&[0, 0, 0, 0], 4)).unwrap();

    let weight = Layer::weight(collapsed.moe.config.aux_loss_weight);
    assert!((cache.aux_loss - 4.0 * weight).abs() < 1e-3);
    assert!(cache.aux_loss > weight);
    let loads: Vec<usize> = cache.routing.expert_tokens.iter().map(Vec::len).collect();
    assert_eq!(loads, vec![4, 0, 0, 0]);
}

#[test]
fn the_z_loss_grows_with_the_router_logits() {
    let mut small = layer(MoeConfig::new(4, 1, 4), 4, 7);
    one_hot_router(&mut small, 1.0);
    let mut large = layer(MoeConfig::new(4, 1, 4), 4, 7);
    one_hot_router(&mut large, 20.0);

    let input = one_hot_rows(&[0, 1, 2, 3], 4);
    let quiet = small.forward_train(&input).unwrap().1.z_loss;
    let loud = large.forward_train(&input).unwrap().1.z_loss;

    assert!(loud > quiet);
    assert!(quiet > 0.0);
}

#[test]
fn a_disabled_z_loss_is_zero() {
    let config = MoeConfig::new(4, 2, 6).with_router_z_loss_weight(off());
    let moe = layer(config, 8, 8);
    let input = random(4, 8, &mut StdRng::seed_from_u64(8));
    let (_, cache) = moe.forward_train(&input).unwrap();

    assert_eq!(cache.z_loss, 0.0);
    assert_eq!(cache.aux_loss + cache.z_loss, cache.aux_loss);
}

#[test]
fn the_shared_expert_contributes_to_every_token() {
    let plain = layer(MoeConfig::new(4, 1, 6), 8, 9);
    let shared = layer(MoeConfig::new(4, 1, 6).with_shared_expert(true), 8, 9);

    let input = random(4, 8, &mut StdRng::seed_from_u64(9));
    let without = plain.forward(&input);
    let with = shared.forward(&input);

    for token in 0..4 {
        assert!(
            without.row(token).iter().zip(with.row(token)).any(|(a, b)| (a - b).abs() > 1e-6),
            "token {token} was unchanged by the shared expert"
        );
    }
}

#[test]
fn gradients_reach_only_the_experts_a_token_was_routed_to() {
    let config = MoeConfig::new(4, 1, 4).with_aux_loss_weight(off()).with_router_z_loss_weight(off());
    let mut moe = layer(config, 4, 10);
    one_hot_router(&mut moe, 30.0);

    let input = one_hot_rows(&[0, 0, 0], 4);
    let (output, cache) = moe.forward_train(&input).unwrap();
    let grad_output = Matrix::from_vec(output.rows, output.cols, vec![1.0; output.data.len()]);
    moe.backward(&cache, &grad_output);

    assert!(moe.experts[0].grads[0].data.iter().any(|&g| g != 0.0));
    for expert in &moe.experts[1..] {
        assert!(
            expert.grads[0].data.iter().all(|&g| g == 0.0),
            "an unrouted expert received a gradient"
        );
    }
}

#[test]
fn backward_matches_finite_differences() {
    let config = MoeConfig::new(4, 2, 5)
        .with_shared_expert(true)
        .with_aux_loss_weight(off())
        .with_router_z_loss_weight(off());
    let mut moe = layer(config, 6, 11);
    let input = Matrix::from_vec(
        3,
        6,
        (0..18).map(|i| ((i * 29) % 17) as f32 / 8.0 - 1.0).collect(),
    );

    let (output, cache) = moe.forward_train(&input).unwrap();
    let grad_output = Matrix::from_vec(output.rows, output.cols, vec![1.0; output.data.len()]);
    let grad_input = moe.backward(&cache, &grad_output);

    let epsilon = 1e-3;
    for index in 0..input.data.len() {
        let mut bumped = copy(&input);
        bumped.data[index] += epsilon;
        let high: f32 = moe.forward(&bumped).data.iter().sum();
        bumped.data[index] -= 2.0 * epsilon;
        let low: f32 = moe.forward(&bumped).data.iter().sum();
        let numeric = (high - low) / (2.0 * epsilon);
        assert!(
            (grad_input.data[index] - numeric).abs() < 2e-2,
            "index {index}: {} vs {numeric}",
            grad_input.data[index]
        );
    }
}

#[test]
fn router_weight_gradient_matches_finite_differences() {
    let config = MoeConfig::new(3, 2, 4).with_aux_loss_weight(off()).with_router_z_loss_weight(off());
    let mut moe = layer(config, 4, 12);
    let input = Matrix::from_vec(
        3,
        4,
        (0..12).map(|i| ((i * 13) % 11) as f32 / 5.0 - 1.0).collect(),
    );

    let (output, cache) = moe.forward_train(&input).unwrap();
    let grad_output = Matrix::from_vec(output.rows, output.cols, vec![1.0; output.data.len()]);
    moe.backward(&cache, &grad_output);
    let analytic = moe.router_grad.data.clone();

    let epsilon = 1e-3;
    for (index, &expected) in analytic.iter().enumerate() {
        moe.router.data[index] += epsilon;
        let high: f32 = moe.forward(&input).data.iter().sum();
        moe.router.data[index] -= 2.0 * epsilon;
        let low: f32 = moe.forward(&input).data.iter().sum();
        moe.router.data[index] += epsilon;
        let numeric = (high - low) / (2.0 * epsilon);
        assert!((expected - numeric).abs() < 2e-2, "index {index}: {expected} vs {numeric}");
    }
}

#[test]
fn auxiliary_loss_gradient_matches_finite_differences() {
    let mut moe = layer(MoeConfig::new(3, 2, 4), 4, 13);
    let input = Matrix::from_vec(
        4,
        4,
        (0..16).map(|i| ((i * 19) % 13) as f32 / 6.0 - 1.0).collect(),
    );

    let (output, cache) = moe.forward_train(&input).unwrap();
    let grad_output = Matrix::new(output.rows, output.cols, 0.0);
    moe.backward(&cache, &grad_output);
    let analytic = moe.router_grad.data.clone();

    let epsilon = 1e-3;
    let loss = |moe: &Layer| {
        let cache = moe.forward_train(&input).unwrap().1;
        cache.aux_loss + cache.z_loss
    };
    for (index, &expected) in analytic.iter().enumerate() {
        moe.router.data[index] += epsilon;
        let high = loss(&moe);
        moe.router.data[index] -= 2.0 * epsilon;
        let low = loss(&moe);
        moe.router.data[index] += epsilon;
        let numeric = (high - low) / (2.0 * epsilon);
        assert!((expected - numeric).abs() < 1e-3, "index {index}: {expected} vs {numeric}");
    }
}

#[test]
fn parameters_are_counted_with_and_without_the_idle_experts() {
    let plain = MoeLayer::new(8, MoeConfig::new(4, 2, 6), 32, 144).unwrap();
    assert_eq!(plain.d_model(), 8);
    assert_eq!(plain.num_parameters(), 32 + 4 * 144);
    assert_eq!(plain.active_parameters(), 32 + 2 * 144);
    let config = MoeConfig::new(4, 2, 6).with_shared_expert(true);
    let shared = MoeLayer::new(8, config, 32, 144).unwrap();
    assert_eq!(shared.num_parameters(), 32 + 5 * 144);
    assert_eq!(shared.active_parameters(), 32 + 3 * 144);
}

#[test]
fn slots_are_grouped_and_their_rows_scattered() {
    let routing = group(3, 2, 3, vec![2, 0, UNROUTED, UNROUTED, 0, 1]);
    assert_eq!(routing.expert_tokens, vec![vec![0, 2], vec![2], vec![0]]);
    assert_eq!(routing.expert_slots, vec![vec![1, 4], vec![5], vec![0]]);
    let rows = Matrix::from_vec(2, 1, vec![10, 20]);
    let weighed = routing.weighed(0, &rows, &vec![1, 2, 3, 4, 5, 6], &|g: i32, v: i32| g * v);
    assert_eq!(weighed.data, vec![20, 100]);
    let mut target = Matrix::new(3, 1, 1);
    scatter(&mut target, &vec![2, 2], &rows, &|a: i32, b: i32| a + b);
    assert_eq!(target.data, vec![1, 1, 31]);
    let upstream = Matrix::from_vec(3, 1, vec![1, 10, 100]);
    let gates = vec![1, 2, 3, 4, 5, 6];
    let part = routing.upstream(0, &gates, &upstream, &|g: i32, v: i32| g * v);
    assert_eq!(part.map(|m| m.data), Some(vec![2, 500]));
    let nothing = group(1, 1, 2, vec![0]);
    let idle = nothing.upstream(1, &vec![7], &Matrix::new(1, 1, 3), &|g: i32, v: i32| g * v);
    assert!(idle.is_none());
    let grads = routing.gate_gradients(-1, &|t: usize, e: usize, r: usize| {
        (t * 100 + e * 10 + r) as i32
    });
    assert_eq!(grads, vec![20, 0, -1, -1, 201, 210]);
    let logits = routing.logit_gradients(0, &|t: usize| vec![t as i32 + 1; 3]);
    assert_eq!(logits.data, vec![1, 1, 1, 0, 0, 0, 3, 3, 3]);
}

#[test]
fn a_mixture_is_the_weighed_sum_of_the_experts_that_saw_the_token() {
    // Token 0 goes to experts 2 and 0, token 1 nowhere, token 2 to 0 and 1.
    let routing = group(3, 2, 3, vec![2, 0, UNROUTED, UNROUTED, 0, 1]);
    let part = |rows: usize, data: Vec<i64>| Some(Matrix::from_vec(rows, 1, data));
    let parts = vec![part(2, vec![3, 5]), part(1, vec![7]), part(1, vec![11])];
    let gates = vec![1, 10, 0, 0, 100, 1000];
    let (scale, sum) = (|g: i64, v: i64| g * v, |a: i64, b: i64| a + b);
    let output = routing.combine(&parts, &gates, &None, 1, 0, &scale, &sum);
    assert_eq!(output.data, vec![11 + 10 * 3, 0, 100 * 5 + 1000 * 7]);
    let shared = part(3, vec![20000, 30000, 40000]);
    let output = routing.combine(&parts, &gates, &shared, 1, 0, &scale, &sum);
    assert_eq!(output.data, vec![20041, 30000, 47500]);
    let router = Matrix::from_vec(3, 1, vec![100000, 200000, 300000]);
    let grad = routing.input_gradient(&parts, &shared, &router, 0, &sum);
    assert_eq!(grad.data, vec![120014, 230000, 340012]);
}
