//! The passes of a device, run step by step on plain numbers: what a forward
//! pass makes is compared with the formula, and what a backward pass makes with
//! finite differences.
use rand::rngs::StdRng;
use rand::{Rng, SeedableRng};
use rusting_brain::device::{Buffer, Factor, Kernel, Kind, Launch, Product, Span, Step, Tile};
use rusting_brain::error::NetworkError;
use rusting_brain::gpu_attention::{AttentionPlan, AttentionShape};
use rusting_brain::gpu_cross::{backward, forward, CrossLayer, CrossShape, Plan};
use rusting_brain::gpu_feed_forward::GatedPlan;
use rusting_brain::gpu_flow::{
    accumulate_conditioning, combined_triples, device_params, BlockParams, FlowPlan, FlowShape,
};
use rusting_brain::gpu_flow_stack::{self, returned_gradients, Returned};
use rusting_brain::gpu_grouping::{group_slots, Grouping};
use rusting_brain::gpu_model::{
    backward_block, chunk, embed, embedding_gradient, final_gradient, final_norm, forward_block,
    head_chunks, BlockPlan, FeedForward, HeadPlan, Kept, StackPlan,
};
use rusting_brain::gpu_moe::{forward_moe, MoePlan};
use rusting_brain::gpu_shape::{
    colors, decode_backward, decode_train, moments, moments_gradient, read_surface,
    split_queries, split_surface, surface_gradient, DecodePlan, EncodePlan,
};
use rusting_brain::matrix::Matrix;
use rusting_brain::{gpu_flow, gpu_shape};
use std::collections::BTreeMap;

/// The buffers of a device, and the constants its kernels are told.
struct Machine {
    buffers: BTreeMap<String, Vec<f64>>,
    scale: f64,
}

fn silu(x: f64) -> f64 {
    x / (1.0 + (-x).exp())
}

fn silu_slope(x: f64) -> f64 {
    let s = 1.0 / (1.0 + (-x).exp());
    s + x * s * (1.0 - s)
}

/// The mean of a sequence's share of a list.
fn mean(values: &[f64], sequence: usize, count: usize) -> f64 {
    values[sequence * count..(sequence + 1) * count].iter().sum::<f64>() / count as f64
}

const EPSILON: f64 = 1e-6;

impl Machine {
    fn new(scale: f64) -> Machine {
        Machine { buffers: BTreeMap::new(), scale }
    }

    fn put(&mut self, buffer: Buffer, values: Vec<f64>) {
        self.buffers.insert(format!("{buffer:?}"), values);
    }

    fn random(&mut self, buffer: Buffer, len: usize, rng: &mut StdRng) {
        self.put(buffer, (0..len).map(|_| rng.gen_range(-0.5..0.5)).collect());
    }

    fn zeros(&mut self, buffer: Buffer, len: usize) {
        self.put(buffer, vec![0.0; len]);
    }

    fn get(&self, buffer: Buffer) -> &Vec<f64> {
        &self.buffers[&format!("{buffer:?}")]
    }

    fn read(&self, span: Span) -> Vec<f64> {
        self.get(span.buffer)[span.offset..span.offset + span.len].to_vec()
    }

    fn write(&mut self, span: Span, values: &[f64]) {
        assert_eq!(span.len, values.len());
        let buffer = self.buffers.get_mut(&format!("{:?}", span.buffer)).unwrap();
        buffer[span.offset..span.offset + span.len].copy_from_slice(values);
    }

    fn run(&mut self, steps: &[Step]) {
        for step in steps {
            match *step {
                Step::Reserve(buffer, len) => self.put(buffer, vec![f64::NAN; len]),
                Step::Launch(launch) => self.launch(launch),
                Step::Heads { heads, group, sequences, product } => {
                    for h in 0..heads {
                        self.multiply(&product, group, h, sequences);
                    }
                }
                Step::HeadPairs { heads, group, sequences, first, second } => {
                    for h in 0..heads {
                        self.multiply(&first, group, h, sequences);
                        self.multiply(&second, group, h, sequences);
                    }
                }
                Step::Append(product) => self.multiply(&product, 1, 0, 1),
                Step::PackExperts { experts, weight, to, len } => {
                    let mut packed = Vec::new();
                    for e in 0..experts {
                        packed.extend(&self.get(Buffer::ExpertGateWeight(e))[..weight]);
                        packed.extend(&self.get(Buffer::ExpertUpWeight(e))[..weight]);
                    }
                    assert_eq!(packed.len(), len);
                    self.put(to, packed);
                }
            }
        }
    }

    fn multiply(&mut self, p: &Product, group: usize, head: usize, sequences: usize) {
        let at = |tile: &Tile, s: usize, r: usize, c: usize| {
            let share = if tile.shared { head / group } else { head };
            tile.offset + share * tile.shift + s * tile.step + r * tile.stride + c
        };
        let factor = match p.factor {
            Factor::One => 1.0,
            Factor::Scale => self.scale,
            Factor::MinusOne => -1.0,
        };
        for s in 0..sequences {
            for i in 0..p.m {
                for j in 0..p.n {
                    let mut sum = 0.0;
                    for l in 0..p.k {
                        let (a, b) = match p.kind {
                            Kind::RhsTransposed => (at(&p.a, s, i, l), at(&p.b, s, j, l)),
                            Kind::Plain => (at(&p.a, s, i, l), at(&p.b, s, l, j)),
                            Kind::LhsTransposed => (at(&p.a, s, l, i), at(&p.b, s, l, j)),
                        };
                        sum += self.get(p.a.buffer)[a] * self.get(p.b.buffer)[b];
                    }
                    let place = at(&p.out, s, i, j);
                    let out = self.buffers.get_mut(&format!("{:?}", p.out.buffer)).unwrap();
                    out[place] = factor * sum + if p.accumulate { out[place] } else { 0.0 };
                }
            }
        }
    }

    fn launch(&mut self, launch: Launch) {
        let (reads, writes, sizes) = (launch.reads, launch.writes, launch.sizes);
        let (rows, cols) = (sizes.rows, sizes.cols);
        match launch.kernel {
            Kernel::Clear => self.write(writes.a, &vec![0.0; writes.a.len]),
            Kernel::Copy => {
                let values = self.read(reads.a);
                self.write(writes.a, &values);
            }
            Kernel::Pack => {
                let mut packed = Vec::new();
                for part in [reads.a, reads.b, reads.c, reads.d, reads.e] {
                    if part.buffer != Buffer::Nothing {
                        packed.extend(self.read(part));
                    }
                }
                self.write(writes.a, &packed);
            }
            Kernel::Add => {
                let source = self.read(reads.a);
                let target = self.read(reads.b);
                let sums: Vec<f64> = source.iter().zip(&target).map(|(a, b)| a + b).collect();
                self.write(writes.a, &sums);
            }
            Kernel::RmsNorm => {
                let (input, weight) = (self.read(reads.a), self.read(reads.b));
                let mut out = Vec::new();
                let mut inverses = Vec::new();
                for line in input.chunks(cols) {
                    let mean = line.iter().map(|v| v * v).sum::<f64>() / cols as f64;
                    let inverse = 1.0 / (mean + EPSILON).sqrt();
                    inverses.push(inverse);
                    out.extend(line.iter().zip(&weight).map(|(v, w)| v * inverse * w));
                }
                self.write(writes.a, &out);
                self.write(writes.b, &inverses);
            }
            Kernel::RmsNormBackward => {
                let (input, grad) = (self.read(reads.a), self.read(reads.b));
                let (weight, inverse) = (self.read(reads.c), self.read(reads.d));
                let residual = if reads.e.buffer == Buffer::GradNorms {
                    vec![0.0; input.len()]
                } else {
                    self.read(reads.e)
                };
                let mut scales = self.read(writes.b);
                let mut out = Vec::new();
                for r in 0..rows {
                    let at = |c: usize| r * cols + c;
                    let dot: f64 =
                        (0..cols).map(|c| grad[at(c)] * weight[c] * input[at(c)]).sum();
                    for c in 0..cols {
                        scales[c] += grad[at(c)] * input[at(c)] * inverse[r];
                        let centred = grad[at(c)] * weight[c]
                            - input[at(c)] * inverse[r] * inverse[r] * dot / cols as f64;
                        out.push(inverse[r] * centred + residual[at(c)]);
                    }
                }
                self.write(writes.a, &out);
                self.write(writes.b, &scales);
            }
            Kernel::Rope | Kernel::RopeBackward => {
                let mut values = self.read(reads.a);
                let half = sizes.head_dim / 2;
                let sign = if launch.kernel == Kernel::Rope { 1.0 } else { -1.0 };
                for r in 0..rows {
                    for h in 0..sizes.heads {
                        for i in 0..half {
                            let first =
                                r * sizes.width + sizes.base + h * sizes.head_dim + i;
                            let angle = sign * (r % sizes.length) as f64
                                / 10_000f64.powf(2.0 * i as f64 / sizes.head_dim as f64);
                            let (a, b) = (values[first], values[first + half]);
                            values[first] = a * angle.cos() - b * angle.sin();
                            values[first + half] = a * angle.sin() + b * angle.cos();
                        }
                    }
                }
                self.write(writes.a, &values);
            }
            Kernel::SoftmaxLse | Kernel::CausalSoftmaxLse => {
                let mut scores = self.read(reads.a);
                let mut sums = Vec::new();
                for (r, line) in scores.chunks_mut(cols).enumerate() {
                    let seen =
                        if launch.kernel == Kernel::SoftmaxLse { cols } else { r % cols + 1 };
                    let lse = line[..seen].iter().map(|v| v.exp()).sum::<f64>().ln();
                    for (c, value) in line.iter_mut().enumerate() {
                        *value = if c < seen { (*value - lse).exp() } else { 0.0 };
                    }
                    sums.push(lse);
                }
                self.write(writes.a, &scores);
                self.write(writes.b, &sums);
            }
            Kernel::ProbsFromLse | Kernel::CausalProbsFromLse => {
                let (mut scores, sums) = (self.read(reads.a), self.read(reads.b));
                for (r, line) in scores.chunks_mut(cols).enumerate() {
                    let seen =
                        if launch.kernel == Kernel::ProbsFromLse { cols } else { r % cols + 1 };
                    for (c, value) in line.iter_mut().enumerate() {
                        *value = if c < seen { (*value - sums[r]).exp() } else { 0.0 };
                    }
                }
                self.write(writes.a, &scores);
            }
            Kernel::SoftmaxBackward | Kernel::CausalSoftmaxBackward => {
                let (mut grads, probabilities) = (self.read(reads.a), self.read(reads.b));
                for r in 0..rows {
                    let line = r * cols..(r + 1) * cols;
                    let dot: f64 = line.clone().map(|i| grads[i] * probabilities[i]).sum();
                    for i in line {
                        grads[i] = probabilities[i] * (grads[i] - dot);
                    }
                }
                self.write(writes.a, &grads);
            }
            Kernel::SwiGlu => {
                let gate_up = self.read(reads.a);
                let hidden: Vec<f64> = (0..rows * cols)
                    .map(|i| {
                        let at = i / cols * 2 * cols + i % cols;
                        silu(gate_up[at]) * gate_up[at + cols]
                    })
                    .collect();
                self.write(writes.a, &hidden);
            }
            Kernel::SwiGluBackward => {
                let (gate_up, grad) = (self.read(reads.a), self.read(reads.b));
                let mut out = vec![0.0; gate_up.len()];
                for i in 0..rows * cols {
                    let at = i / cols * 2 * cols + i % cols;
                    out[at] = grad[i] * gate_up[at + cols] * silu_slope(gate_up[at]);
                    out[at + cols] = grad[i] * silu(gate_up[at]);
                }
                self.write(writes.a, &out);
            }
            Kernel::RouterSoftmax => {
                let mut logits = self.read(reads.a);
                let mut sums = Vec::new();
                for line in logits.chunks_mut(cols) {
                    let lse = line.iter().map(|v| v.exp()).sum::<f64>().ln();
                    line.iter_mut().for_each(|v| *v = (*v - lse).exp());
                    sums.push(lse);
                }
                self.write(writes.a, &logits);
                self.write(writes.b, &sums);
            }
            Kernel::TopKGate => {
                let (probabilities, valid) = (self.read(reads.a), self.read(reads.b));
                let mut experts = Vec::new();
                let mut gates = Vec::new();
                for r in 0..rows {
                    let line = &probabilities[r * cols..(r + 1) * cols];
                    let mut ranked: Vec<usize> = (0..cols).collect();
                    ranked.sort_by(|a, b| line[*b].total_cmp(&line[*a]));
                    let total: f64 = ranked[..sizes.heads].iter().map(|e| line[*e]).sum();
                    for expert in &ranked[..sizes.heads] {
                        let real = valid[r] != 0.0;
                        experts.push(if real { *expert as f64 } else { -1.0 });
                        gates.push(if real { line[*expert] / total } else { 0.0 });
                    }
                }
                self.write(writes.a, &experts);
                self.write(writes.b, &gates);
            }
            Kernel::Gather | Kernel::GatherScaled => {
                let (table, places) = (self.read(reads.a), self.read(reads.b));
                let mut out = Vec::new();
                for r in 0..rows {
                    let gate = if launch.kernel == Kernel::Gather {
                        1.0
                    } else {
                        self.read(reads.c)[r]
                    };
                    let from = places[r] as usize * cols;
                    out.extend(table[from..from + cols].iter().map(|v| gate * v));
                }
                self.write(writes.a, &out);
            }
            Kernel::Scatter | Kernel::ScatterScaled | Kernel::ScatterNegated => {
                let (source, places) = (self.read(reads.a), self.read(reads.b));
                let mut target = self.read(writes.a);
                for r in 0..rows {
                    let gate = match launch.kernel {
                        Kernel::Scatter => 1.0,
                        Kernel::ScatterNegated => -1.0,
                        _ => self.read(reads.c)[r],
                    };
                    for c in 0..cols {
                        target[places[r] as usize * cols + c] += gate * source[r * cols + c];
                    }
                }
                self.write(writes.a, &target);
            }
            Kernel::Stats => {
                let (probabilities, sums) = (self.read(reads.a), self.read(reads.b));
                let valid = self.read(reads.c);
                let mut stats = self.read(writes.a);
                for r in 0..rows {
                    if valid[r] != 0.0 {
                        for c in 0..cols {
                            stats[c] += probabilities[r * cols + c];
                        }
                        stats[cols] += sums[r] * sums[r];
                    }
                }
                self.write(writes.a, &stats);
            }
            Kernel::RowDot => {
                let (slots, grads) = (self.read(reads.a), self.read(reads.b));
                let (tokens, made) = (self.read(reads.c), self.read(reads.d));
                let mut out = self.read(writes.a);
                for r in 0..rows {
                    let from = tokens[r] as usize * cols;
                    out[slots[r] as usize] =
                        (0..cols).map(|c| grads[from + c] * made[r * cols + c]).sum();
                }
                self.write(writes.a, &out);
            }
            Kernel::GradProbabilities => {
                let (grad_gates, probabilities) = (self.read(reads.a), self.read(reads.b));
                let experts = self.read(reads.c);
                let mut out = self.read(writes.a);
                for r in 0..rows {
                    let slots = r * sizes.heads..(r + 1) * sizes.heads;
                    if experts[slots.start] < 0.0 {
                        continue;
                    }
                    let p = |slot: usize| probabilities[r * cols + experts[slot] as usize];
                    let total: f64 = slots.clone().map(p).sum();
                    let weighted: f64 = slots.clone().map(|s| grad_gates[s] * p(s)).sum();
                    for slot in slots {
                        out[r * cols + experts[slot] as usize] +=
                            grad_gates[slot] / total - weighted / (total * total);
                    }
                }
                self.write(writes.a, &out);
            }
            Kernel::GradLogits => {
                let (grads, probabilities) = (self.read(reads.a), self.read(reads.b));
                let experts = self.read(reads.d);
                let mut out = self.read(writes.a);
                for r in 0..rows {
                    if experts[r * sizes.heads] < 0.0 {
                        continue;
                    }
                    let line = r * cols..(r + 1) * cols;
                    let dot: f64 = line.clone().map(|i| grads[i] * probabilities[i]).sum();
                    for i in line {
                        out[i] = probabilities[i] * (grads[i] - dot);
                    }
                }
                self.write(writes.a, &out);
            }
            Kernel::CrossEntropy => {
                // The logits become what is added to them: target minus
                // prediction.
                let (mut logits, targets) = (self.read(reads.a), self.read(reads.b));
                let mut loss = self.read(reads.c)[0];
                for r in 0..rows {
                    let line = &mut logits[r * cols..(r + 1) * cols];
                    if targets[r] < 0.0 {
                        line.iter_mut().for_each(|v| *v = 0.0);
                        continue;
                    }
                    let target = targets[r] as usize;
                    let lse = line.iter().map(|v| v.exp()).sum::<f64>().ln();
                    loss += lse - line[target];
                    for (c, value) in line.iter_mut().enumerate() {
                        let wanted = if c == target { 1.0 } else { 0.0 };
                        *value = wanted - (*value - lse).exp();
                    }
                }
                self.write(writes.a, &logits);
                self.write(writes.b, &[loss]);
            }
            // Stand-ins for a whole sub-layer: every query sees the mean of its
            // sequence's keys, and a feed-forward bends each number.
            Kernel::Attention => {
                let queries = self.read(reads.a);
                let keys = if reads.b.buffer == Buffer::Nothing {
                    queries.clone()
                } else {
                    self.read(reads.b)
                };
                let (share, count) = (queries.len() / sizes.width, keys.len() / sizes.width);
                let out: Vec<f64> = (0..queries.len())
                    .map(|i| queries[i].sin() * (1.0 + mean(&keys, i / share, count)))
                    .collect();
                self.write(writes.a, &out);
            }
            Kernel::AttentionBackward => {
                let (grad, queries) = (self.read(reads.a), self.read(reads.b));
                let keys = if reads.c.buffer == Buffer::Nothing {
                    queries.clone()
                } else {
                    self.read(reads.c)
                };
                let (share, count) = (queries.len() / sizes.width, keys.len() / sizes.width);
                let mut to_queries = Vec::new();
                let mut to_keys = vec![0.0; keys.len()];
                for i in 0..queries.len() {
                    let s = i / share;
                    to_queries.push(grad[i] * queries[i].cos() * (1.0 + mean(&keys, s, count)));
                    for k in s * count..(s + 1) * count {
                        to_keys[k] += grad[i] * queries[i].sin() / count as f64;
                    }
                }
                self.write(writes.a, &to_queries);
                self.write(writes.b, &to_keys);
            }
            Kernel::FeedForward => {
                let (input, target) = (self.read(reads.a), self.read(reads.b));
                let out: Vec<f64> =
                    input.iter().zip(&target).map(|(v, t)| t + v.tanh()).collect();
                self.write(writes.a, &out);
            }
            Kernel::FeedForwardBackward => {
                let (input, grad) = (self.read(reads.a), self.read(reads.b));
                let out: Vec<f64> = input
                    .iter()
                    .zip(&grad)
                    .map(|(v, g)| g * (1.0 - v.tanh() * v.tanh()))
                    .collect();
                self.write(writes.a, &out);
            }
            // A sequence's conditioning is its shift, its scale and its gate.
            Kernel::Modulate => {
                let (normed, triples) = (self.read(reads.a), self.read(reads.b));
                let out: Vec<f64> = (0..rows * cols)
                    .map(|i| {
                        let at = i / cols / sizes.length * 3 * cols + i % cols;
                        normed[i] * (1.0 + triples[at + cols]) + triples[at]
                    })
                    .collect();
                self.write(writes.a, &out);
            }
            Kernel::ModulateBackward => {
                let (grad, normed) = (self.read(reads.a), self.read(reads.b));
                let triples = self.read(reads.c);
                let mut to_triples = self.read(writes.b);
                let mut out = Vec::new();
                for i in 0..rows * cols {
                    let at = i / cols / sizes.length * 3 * cols + i % cols;
                    to_triples[at] += grad[i];
                    to_triples[at + cols] += grad[i] * normed[i];
                    out.push(grad[i] * (1.0 + triples[at + cols]));
                }
                self.write(writes.a, &out);
                self.write(writes.b, &to_triples);
            }
            Kernel::GateResidual => {
                let (stream, branch) = (self.read(reads.a), self.read(reads.b));
                let triples = self.read(reads.c);
                let out: Vec<f64> = (0..rows * cols)
                    .map(|i| {
                        let at = i / cols / sizes.length * 3 * cols + i % cols;
                        stream[i] + triples[at + 2 * cols] * branch[i]
                    })
                    .collect();
                self.write(writes.a, &out);
            }
            Kernel::GateResidualBackward => {
                let (branch, triples) = (self.read(reads.a), self.read(reads.b));
                let grad = self.read(reads.c);
                let mut to_triples = self.read(writes.b);
                let mut out = Vec::new();
                for i in 0..rows * cols {
                    let at = i / cols / sizes.length * 3 * cols + i % cols;
                    to_triples[at + 2 * cols] += grad[i] * branch[i];
                    out.push(grad[i] * triples[at + 2 * cols]);
                }
                self.write(writes.a, &out);
                self.write(writes.b, &to_triples);
            }
            other => panic!("{other:?} is no kernel of these passes"),
        }
    }
}

fn close(name: &str, found: &[f64], expected: &[f64]) {
    assert_eq!(found.len(), expected.len(), "{name}");
    for (i, (a, b)) in found.iter().zip(expected).enumerate() {
        assert!((a - b).abs() < 1e-4, "{name} {i}: {a} against {b}");
    }
}

/// Checks gradients against the differences of a loss: `make` sets up a machine
/// and runs it forward, given one nudge to one entry of a buffer. The gradients
/// of weights are stored negated.
fn check_gradients(
    machine: &Machine,
    pairs: &[(Buffer, Buffer, f64)],
    loss: &dyn Fn(&[(Buffer, usize, f64)]) -> f64,
) {
    for (value, gradient, sign) in pairs {
        let found = machine.get(*gradient);
        let numeric: Vec<f64> = (0..found.len())
            .map(|i| {
                (loss(&[(*value, i, 1e-4)]) - loss(&[(*value, i, -1e-4)])) / 2e-4 * sign
            })
            .collect();
        close(&format!("{gradient:?}"), found, &numeric);
    }
}

// -- Cross-attention -----------------------------------------------------------

fn cross_layer() -> CrossLayer {
    CrossLayer {
        d_model: 8,
        kv_features: 6,
        heads: 4,
        kv_heads: 2,
        head_dim: 4,
        rope: false,
        causal: false,
    }
}

fn cross_machine(nudges: &[(Buffer, usize, f64)]) -> (Machine, Plan) {
    let shape = CrossShape { q_len: 3, kv_len: 5, sequences: 2 };
    let plan = Plan::new(cross_layer(), shape).unwrap();
    let mut rng = StdRng::seed_from_u64(7);
    let mut machine = Machine::new(0.5);
    machine.random(Buffer::Input, 6 * 8, &mut rng);
    machine.random(Buffer::KeysInput, 10 * 6, &mut rng);
    machine.random(Buffer::GradOutput, 6 * 8, &mut rng);
    machine.random(Buffer::QueryWeight, 16 * 8, &mut rng);
    machine.random(Buffer::KeyWeight, 8 * 6, &mut rng);
    machine.random(Buffer::ValueWeight, 8 * 6, &mut rng);
    machine.random(Buffer::OutputWeight, 8 * 16, &mut rng);
    machine.zeros(Buffer::QueryGrad, 16 * 8);
    machine.zeros(Buffer::KeyGrad, 8 * 6);
    machine.zeros(Buffer::ValueGrad, 8 * 6);
    machine.zeros(Buffer::OutputGrad, 8 * 16);
    nudge(&mut machine, nudges);
    machine.run(&forward(&plan));
    (machine, plan)
}

fn nudge(machine: &mut Machine, nudges: &[(Buffer, usize, f64)]) {
    for (buffer, i, by) in nudges {
        machine.buffers.get_mut(&format!("{buffer:?}")).unwrap()[*i] += by;
    }
}

fn inner(a: &[f64], b: &[f64]) -> f64 {
    a.iter().zip(b).map(|(x, y)| x * y).sum()
}

/// `input * weight^T`.
fn projected(input: &[f64], weight: &[f64], width: usize) -> Vec<f64> {
    let mut out = Vec::new();
    for line in input.chunks(width) {
        out.extend(weight.chunks(width).map(|w| inner(line, w)));
    }
    out
}

#[test]
fn cross_attention_matches_the_host_or_skips_without_device() {
    let (mut machine, plan) = cross_machine(&[]);
    let queries = projected(machine.get(Buffer::Input), machine.get(Buffer::QueryWeight), 8);
    let keys = projected(machine.get(Buffer::KeysInput), machine.get(Buffer::KeyWeight), 6);
    let values = projected(machine.get(Buffer::KeysInput), machine.get(Buffer::ValueWeight), 6);
    let mut merged = vec![0.0; 6 * 16];
    for s in 0..2 {
        for h in 0..4 {
            // Two query heads share one key head.
            let shared = h / 2 * 4;
            for q in 0..3 {
                let query = &queries[(s * 3 + q) * 16 + h * 4..][..4];
                let weights: Vec<f64> = (0..5)
                    .map(|k| (0.5 * inner(query, &keys[(s * 5 + k) * 8 + shared..][..4])).exp())
                    .collect();
                let total: f64 = weights.iter().sum();
                for c in 0..4 {
                    merged[(s * 3 + q) * 16 + h * 4 + c] = (0..5)
                        .map(|k| weights[k] / total * values[(s * 5 + k) * 8 + shared + c])
                        .sum();
                }
            }
        }
    }
    let output = projected(&merged, machine.get(Buffer::OutputWeight), 16);
    close("cross forward", machine.get(Buffer::Output), &output);

    machine.run(&backward(&plan));
    let loss = |nudges: &[(Buffer, usize, f64)]| {
        let (machine, _) = cross_machine(nudges);
        inner(machine.get(Buffer::Output), machine.get(Buffer::GradOutput))
    };
    check_gradients(
        &machine,
        &[
            (Buffer::Input, Buffer::GradInput, 1.0),
            (Buffer::KeysInput, Buffer::GradKeysInput, 1.0),
            (Buffer::QueryWeight, Buffer::QueryGrad, -1.0),
            (Buffer::KeyWeight, Buffer::KeyGrad, -1.0),
            (Buffer::ValueWeight, Buffer::ValueGrad, -1.0),
            (Buffer::OutputWeight, Buffer::OutputGrad, -1.0),
        ],
        &loss,
    );
}

#[test]
fn a_self_attention_layer_is_refused_or_skips_without_device() {
    let shape = CrossShape { q_len: 2, kv_len: 2, sequences: 1 };
    let layer = CrossLayer {
        d_model: 8,
        kv_features: 8,
        heads: 2,
        kv_heads: 2,
        head_dim: 4,
        rope: true,
        causal: true,
    };
    assert!(Plan::new(layer, shape).is_err());
    assert!(Plan::new(CrossLayer { rope: false, ..layer }, shape).is_err());
    assert!(Plan::new(CrossLayer { causal: false, ..layer }, shape).is_err());
    let cross = CrossLayer { rope: false, causal: false, ..layer };
    assert!(Plan::new(cross, shape).is_ok());
    assert_eq!(shape.q_rows(), 2);
    assert_eq!(CrossShape { kv_len: 5, sequences: 3, ..shape }.kv_rows(), 15);
    let grouped = Plan::new(cross_layer(), shape).unwrap();
    let bases: Vec<usize> = (0..4).map(|head| grouped.kv_base(head)).collect();
    assert_eq!(bases, vec![0, 0, 4, 4]);
}

// -- A block of a language model -------------------------------------------------

fn attention_plan() -> AttentionPlan {
    AttentionPlan::new(AttentionShape {
        seq_len: 3,
        sequences: 2,
        d_model: 6,
        heads: 2,
        kv_heads: 1,
        head_dim: 4,
        fused: false,
    })
}

fn dense() -> GatedPlan {
    GatedPlan::new(
        6,
        6,
        5,
        Buffer::FeedForwardNormed,
        Buffer::Output,
        Buffer::GradOutput,
        Buffer::GradFeedForward,
    )
}

fn attention_buffers(machine: &mut Machine, rng: &mut StdRng) {
    machine.random(Buffer::Input, 36, rng);
    machine.random(Buffer::GradOutput, 36, rng);
    machine.random(Buffer::NormWeight, 6, rng);
    machine.random(Buffer::FeedForwardWeight, 6, rng);
    machine.random(Buffer::QueryWeight, 8 * 6, rng);
    machine.random(Buffer::KeyWeight, 4 * 6, rng);
    machine.random(Buffer::ValueWeight, 4 * 6, rng);
    machine.random(Buffer::OutputWeight, 6 * 8, rng);
    machine.zeros(Buffer::QueryGrad, 8 * 6);
    machine.zeros(Buffer::KeyGrad, 4 * 6);
    machine.zeros(Buffer::ValueGrad, 4 * 6);
    machine.zeros(Buffer::OutputGrad, 6 * 8);
    machine.zeros(Buffer::GradNorms, 5 * 6);
}

fn dense_machine(nudges: &[(Buffer, usize, f64)]) -> Machine {
    let mut rng = StdRng::seed_from_u64(11);
    let mut machine = Machine::new(0.5);
    attention_buffers(&mut machine, &mut rng);
    machine.random(Buffer::GateWeight, 5 * 6, &mut rng);
    machine.random(Buffer::UpWeight, 5 * 6, &mut rng);
    machine.random(Buffer::DownWeight, 6 * 5, &mut rng);
    machine.zeros(Buffer::GateGrad, 5 * 6);
    machine.zeros(Buffer::UpGrad, 5 * 6);
    machine.zeros(Buffer::DownGrad, 6 * 5);
    nudge(&mut machine, nudges);
    let steps = forward_block(&attention_plan(), 8, &FeedForward::SwiGlu(dense())).unwrap();
    machine.run(&steps);
    machine
}

fn nothing() -> Grouping {
    group_slots(&Vec::new(), 1, 1)
}

#[test]
fn a_block_and_its_gradient_agree() {
    let mut machine = dense_machine(&[]);
    let block = BlockPlan::new(attention_plan(), 1, 2);
    let steps = backward_block(
        &block,
        &FeedForward::SwiGlu(dense()),
        Kept::Dense,
        &nothing(),
        &None,
        false,
    )
    .unwrap();
    machine.run(&steps);
    let loss = |nudges: &[(Buffer, usize, f64)]| {
        let machine = dense_machine(nudges);
        inner(machine.get(Buffer::Output), machine.get(Buffer::GradOutput))
    };
    check_gradients(
        &machine,
        &[
            (Buffer::Input, Buffer::GradInput, 1.0),
            (Buffer::QueryWeight, Buffer::QueryGrad, -1.0),
            (Buffer::KeyWeight, Buffer::KeyGrad, -1.0),
            (Buffer::ValueWeight, Buffer::ValueGrad, -1.0),
            (Buffer::OutputWeight, Buffer::OutputGrad, -1.0),
            (Buffer::GateWeight, Buffer::GateGrad, -1.0),
            (Buffer::UpWeight, Buffer::UpGrad, -1.0),
            (Buffer::DownWeight, Buffer::DownGrad, -1.0),
        ],
        &loss,
    );
    // The scales of the two norms have slots of their own: the second block's
    // are the fourth and the fifth.
    let norms = machine.get(Buffer::GradNorms);
    let slope = |buffer: Buffer, i: usize| {
        (loss(&[(buffer, i, 1e-4)]) - loss(&[(buffer, i, -1e-4)])) / 2e-4
    };
    for i in 0..6 {
        assert_eq!(norms[i], 0.0);
        assert!((norms[18 + i] - slope(Buffer::NormWeight, i)).abs() < 1e-4);
        assert!((norms[24 + i] - slope(Buffer::FeedForwardWeight, i)).abs() < 1e-4);
    }
}

#[test]
fn the_attention_forward_matches_the_host_or_skips_without_device() {
    let machine = dense_machine(&[]);
    let (normed, rows) = (machine.get(Buffer::Normed), 6);
    let width = 4;
    let mut queries = projected(normed, machine.get(Buffer::QueryWeight), 6);
    let mut keys = projected(normed, machine.get(Buffer::KeyWeight), 6);
    let values = projected(normed, machine.get(Buffer::ValueWeight), 6);
    for (table, heads) in [(&mut queries, 2), (&mut keys, 1)] {
        for r in 0..rows {
            for h in 0..heads {
                for i in 0..2 {
                    let at = r * heads * width + h * width + i;
                    let angle = (r % 3) as f64 / 10_000f64.powf(i as f64 / 2.0);
                    let (a, b) = (table[at], table[at + 2]);
                    table[at] = a * angle.cos() - b * angle.sin();
                    table[at + 2] = a * angle.sin() + b * angle.cos();
                }
            }
        }
    }
    let mut merged = vec![0.0; rows * 8];
    for r in 0..rows {
        let first = r / 3 * 3;
        for h in 0..2 {
            let query = &queries[r * 8 + h * width..][..width];
            // A position sees those before it and itself.
            let weights: Vec<f64> = (first..=r)
                .map(|k| (0.5 * inner(query, &keys[k * width..][..width])).exp())
                .collect();
            let total: f64 = weights.iter().sum();
            for c in 0..width {
                merged[r * 8 + h * width + c] = weights
                    .iter()
                    .enumerate()
                    .map(|(k, weight)| weight / total * values[(first + k) * width + c])
                    .sum();
            }
        }
    }
    close("attention forward", machine.get(Buffer::Merged), &merged);
    let made = projected(&merged, machine.get(Buffer::OutputWeight), 8);
    let residual: Vec<f64> =
        made.iter().zip(machine.get(Buffer::Input)).map(|(a, b)| a + b).collect();
    close("residual", machine.get(Buffer::Residual), &residual);
}

fn moe_plan(routed: usize) -> MoePlan {
    MoePlan::new(6, 6, 3, 4, 2, routed)
}

/// Runs a block whose feed-forward is routed, and hands back how its slots were
/// grouped. The last row is padding.
fn moe_machine(nudges: &[(Buffer, usize, f64)]) -> (Machine, Grouping) {
    let mut rng = StdRng::seed_from_u64(23);
    let mut machine = Machine::new(0.5);
    attention_buffers(&mut machine, &mut rng);
    machine.random(Buffer::RouterWeight, 4 * 6, &mut rng);
    machine.zeros(Buffer::RouterGrad, 4 * 6);
    machine.put(Buffer::Valid, vec![1.0, 1.0, 1.0, 1.0, 1.0, 0.0]);
    for e in 0..4 {
        machine.random(Buffer::ExpertGateWeight(e), 18, &mut rng);
        machine.random(Buffer::ExpertUpWeight(e), 18, &mut rng);
        machine.random(Buffer::ExpertDownWeight(e), 18, &mut rng);
        machine.zeros(Buffer::ExpertGateGrad(e), 18);
        machine.zeros(Buffer::ExpertUpGrad(e), 18);
        machine.zeros(Buffer::ExpertDownGrad(e), 18);
    }
    nudge(&mut machine, nudges);
    let steps = forward_block(&attention_plan(), 8, &FeedForward::Moe(moe_plan(0))).unwrap();
    machine.run(&steps);
    let assigned: Vec<i32> = machine.get(Buffer::ExpertOf).iter().map(|e| *e as i32).collect();
    let grouping = group_slots(&assigned, 4, 2);
    machine.put(Buffer::TokenOf, grouping.token_of.iter().map(|t| *t as f64).collect());
    machine.put(Buffer::SlotOf, grouping.slot_of.iter().map(|s| *s as f64).collect());
    let gates = grouping.gates(machine.get(Buffer::GateOf), 0.0);
    machine.put(Buffer::Gates, gates);
    let steps = forward_moe(&moe_plan(grouping.routed), &grouping, &None);
    machine.run(&steps);
    (machine, grouping)
}

#[test]
fn a_routed_block_and_its_gradient_agree() {
    let (mut machine, grouping) = moe_machine(&[]);
    assert_eq!(grouping.routed, 10);
    // What the experts add to each row, straight from the formula.
    let normed = machine.get(Buffer::FeedForwardNormed);
    let mut expected = machine.get(Buffer::Residual).clone();
    for slot in 0..12 {
        let expert = machine.get(Buffer::ExpertOf)[slot];
        if expert < 0.0 {
            continue;
        }
        let expert = expert as usize;
        let row = &normed[slot / 2 * 6..][..6];
        let gate = projected(row, machine.get(Buffer::ExpertGateWeight(expert)), 6);
        let up = projected(row, machine.get(Buffer::ExpertUpWeight(expert)), 6);
        let hidden: Vec<f64> = gate.iter().zip(&up).map(|(g, u)| silu(*g) * u).collect();
        let made = projected(&hidden, machine.get(Buffer::ExpertDownWeight(expert)), 3);
        for c in 0..6 {
            expected[slot / 2 * 6 + c] += machine.get(Buffer::GateOf)[slot] * made[c];
        }
    }
    close("routed forward", machine.get(Buffer::Output), &expected);

    let block = BlockPlan::new(attention_plan(), 0, 2);
    let feed_forward = FeedForward::Moe(moe_plan(grouping.routed));
    let steps =
        backward_block(&block, &feed_forward, Kept::Routed, &grouping, &None, false).unwrap();
    machine.run(&steps);
    let loss = |nudges: &[(Buffer, usize, f64)]| {
        let (machine, _) = moe_machine(nudges);
        inner(machine.get(Buffer::Output), machine.get(Buffer::GradOutput))
    };
    let mut pairs = vec![
        (Buffer::Input, Buffer::GradInput, 1.0),
        (Buffer::RouterWeight, Buffer::RouterGrad, -1.0),
        (Buffer::QueryWeight, Buffer::QueryGrad, -1.0),
    ];
    for e in 0..4 {
        pairs.push((Buffer::ExpertGateWeight(e), Buffer::ExpertGateGrad(e), -1.0));
        pairs.push((Buffer::ExpertUpWeight(e), Buffer::ExpertUpGrad(e), -1.0));
        pairs.push((Buffer::ExpertDownWeight(e), Buffer::ExpertDownGrad(e), -1.0));
    }
    check_gradients(&machine, &pairs, &loss);
}

#[test]
fn a_block_refuses_what_it_cannot_run() {
    let plan = attention_plan();
    let long = forward_block(&plan, 2, &FeedForward::SwiGlu(dense()));
    assert!(matches!(
        long,
        Err(NetworkError::SequenceTooLong { length: 3, max_seq_len: 2 })
    ));
    let gelu = forward_block(&plan, 8, &FeedForward::Gelu);
    match gelu {
        Err(NetworkError::UnsupportedCuda(message)) => assert_eq!(
            message,
            "the device training path implements SwiGLU feed-forwards and MoE layers, not a GELU MLP"
        ),
        other => panic!("{other:?}"),
    }
    let block = BlockPlan::new(plan, 0, 1);
    let dense = FeedForward::SwiGlu(dense());
    let mixed = backward_block(&block, &dense, Kept::Routed, &nothing(), &None, false);
    assert!(matches!(mixed, Err(NetworkError::Cuda(_))));
    let gelu =
        backward_block(&block, &FeedForward::Gelu, Kept::Dense, &nothing(), &None, false);
    assert!(matches!(gelu, Err(NetworkError::UnsupportedCuda(_))));
}

// -- The ends of the stack -------------------------------------------------------

/// A model of no blocks: gather, normalize, project, score.
fn stack_machine(rows_at_once: usize, nudges: &[(Buffer, usize, f64)]) -> Machine {
    let (rows, width, vocab) = (5, 4, 3);
    let plan = StackPlan::new(rows, width, vocab, 0);
    let mut rng = StdRng::seed_from_u64(31);
    let mut machine = Machine::new(1.0);
    machine.random(Buffer::Table, vocab * width, &mut rng);
    machine.random(Buffer::FinalWeight, width, &mut rng);
    machine.random(Buffer::HeadWeight, vocab * width, &mut rng);
    machine.zeros(Buffer::HeadGrad, vocab * width);
    machine.zeros(Buffer::TableGrad, vocab * width);
    machine.put(Buffer::Ids, vec![0.0, 2.0, 1.0, 2.0, 0.0]);
    machine.put(Buffer::Targets, vec![2.0, 1.0, -1.0, 0.0, 1.0]);
    machine.zeros(Buffer::Loss, 1);
    nudge(&mut machine, nudges);
    machine.run(&embed(&plan));
    let input = machine.get(Buffer::Input).clone();
    machine.put(Buffer::FinalInput, input);
    machine.run(&final_norm(&plan));
    machine.put(Buffer::GradFinal, vec![f64::NAN; rows * width]);
    for (start, count) in head_chunks(rows, rows_at_once) {
        machine.run(&chunk(&HeadPlan::new(rows, vocab, width, start, count)));
    }
    machine.run(&final_gradient(&plan));
    let gradient = machine.get(Buffer::GradOutput).clone();
    machine.put(Buffer::GradInput, gradient);
    machine.run(&embedding_gradient(&plan));
    machine
}

#[test]
fn the_head_and_the_embedding_learn_from_the_loss() {
    let machine = stack_machine(5, &[]);
    let loss = |nudges: &[(Buffer, usize, f64)]| stack_machine(5, nudges).get(Buffer::Loss)[0];
    check_gradients(
        &machine,
        &[
            // Upstream of the logits is target minus prediction, so what is
            // stored of the weights is the gradient itself.
            (Buffer::HeadWeight, Buffer::HeadGrad, 1.0),
            (Buffer::Table, Buffer::TableGrad, 1.0),
        ],
        &loss,
    );
}

#[test]
fn a_head_in_chunks_is_the_head_at_once() {
    let whole = stack_machine(5, &[]);
    for rows_at_once in 1..5 {
        let chunked = stack_machine(rows_at_once, &[]);
        for buffer in [Buffer::Loss, Buffer::HeadGrad, Buffer::TableGrad, Buffer::GradFinal] {
            close(&format!("{buffer:?}"), chunked.get(buffer), whole.get(buffer));
        }
    }
}

// -- Blocks of a flow -------------------------------------------------------------

fn flow_shape() -> FlowShape {
    FlowShape { latents: 3, cond_tokens: 2, sequences: 2, d_model: 4 }
}

fn flow_machine(nudges: &[(Buffer, usize, f64)]) -> (Machine, FlowPlan) {
    let plan = FlowPlan::new(flow_shape(), 1, 2, 5);
    let mut rng = StdRng::seed_from_u64(41);
    let mut machine = Machine::new(1.0);
    machine.random(Buffer::Stream(0), 24, &mut rng);
    machine.random(Buffer::Tokens, 20, &mut rng);
    machine.random(Buffer::Triples, 2 * 3 * 24, &mut rng);
    machine.random(Buffer::GradStream(3), 24, &mut rng);
    for sub in 0..3 {
        machine.random(Buffer::SubWeight(sub), 4, &mut rng);
    }
    machine.zeros(Buffer::GradTokens, 20);
    machine.zeros(Buffer::GradTriples, 2 * 3 * 24);
    machine.zeros(Buffer::GradNorms, 2 * 3 * 4);
    nudge(&mut machine, nudges);
    machine.run(&gpu_flow::block_forward(&plan));
    (machine, plan)
}

#[test]
fn a_conditioned_block_and_its_gradient_agree() {
    let (mut machine, plan) = flow_machine(&[]);
    machine.run(&gpu_flow::block_backward(&plan));
    let loss = |nudges: &[(Buffer, usize, f64)]| {
        let (machine, _) = flow_machine(nudges);
        inner(machine.get(Buffer::Stream(3)), machine.get(Buffer::GradStream(3)))
    };
    check_gradients(
        &machine,
        &[
            (Buffer::Stream(0), Buffer::GradStream(0), 1.0),
            (Buffer::Tokens, Buffer::GradTokens, 1.0),
            (Buffer::Triples, Buffer::GradTriples, 1.0),
        ],
        &loss,
    );
    // The second block's scales follow the first's.
    let norms = machine.get(Buffer::GradNorms);
    for i in 0..12 {
        assert_eq!(norms[i], 0.0);
        let buffer = Buffer::SubWeight(i / 4);
        let slope = (loss(&[(buffer, i % 4, 1e-4)]) - loss(&[(buffer, i % 4, -1e-4)])) / 2e-4;
        assert!((norms[12 + i] - slope).abs() < 1e-4);
    }
}

#[test]
fn conditioning_has_a_place_for_every_block() {
    let shape = flow_shape();
    assert_eq!(shape.rows(), 6);
    assert_eq!(shape.slab(), 24);
    assert_eq!(shape.conditioning_at(0), (0, 0));
    assert_eq!(shape.conditioning_at(2), (144, 24));
    assert_eq!(shape.conditioning_len(2), (144, 24));
}

#[test]
fn the_blocks_of_a_flow_run_and_are_taken_back() {
    let shape = flow_shape();
    let forwards = gpu_flow_stack::forward_train(&shape, 3, 5);
    let order: Vec<Option<usize>> = forwards.iter().map(|stage| stage.block).collect();
    assert_eq!(order, vec![Some(0), Some(1), Some(2)]);
    let plan = FlowPlan::new(shape, 1, 3, 5);
    assert_eq!(forwards[1].steps, gpu_flow::block_forward(&plan));
    let backwards = gpu_flow_stack::backward(&shape, 3, 5);
    let order: Vec<Option<usize>> = backwards.iter().map(|stage| stage.block).collect();
    assert_eq!(order, vec![Some(2), Some(1), Some(0)]);
    assert_eq!(backwards[1].steps, gpu_flow::block_backward(&plan));
    // What comes back of a sub-layer is what its block wrote.
    let back = returned_gradients(&shape, 3);
    assert_eq!(back.len(), 9);
    let wanted = Returned { block: 1, sub_layer: 2, scales_at: plan.norm2, slab_at: plan.at2 };
    assert_eq!(back[5], wanted);
    assert_eq!((plan.norm2, plan.at2), (20, 120));
}

#[test]
fn offsets_are_added_to_every_triple_and_their_gradients_summed() {
    let add = |a: i32, b: i32| a + b;
    let triple = Matrix::from_vec(2, 3, vec![1, 2, 3, 4, 5, 6]);
    let combined = combined_triples(&triple, &vec![vec![10, 20, 30], vec![0, 0, 100]], &add);
    assert_eq!(combined, vec![11, 22, 33, 14, 25, 36, 1, 2, 103, 4, 5, 106]);

    let mut grad_triple = Matrix::from_vec(2, 3, vec![0; 6]);
    let mut offset_grad = vec![1, 1, 1];
    let slab = vec![1, 2, 3, 4, 5, 6];
    accumulate_conditioning(&slab, &mut grad_triple, &mut offset_grad, false, &add);
    assert_eq!(grad_triple.data, slab);
    assert_eq!(offset_grad, vec![6, 8, 10]);
    accumulate_conditioning(&slab, &mut grad_triple, &mut offset_grad, true, &add);
    assert_eq!(grad_triple.data, vec![2, 4, 6, 8, 10, 12]);
    assert_eq!(offset_grad, vec![6, 8, 10]);
}

#[test]
fn parameters_are_listed_block_by_block() {
    let block = |first: u8| BlockParams {
        self_attention: vec![first, first + 1],
        cross_attention: vec![first + 2],
        mlp: vec![first + 3],
    };
    assert_eq!(device_params(&vec![block(0), block(10)]), vec![0, 1, 2, 3, 10, 11, 12, 13]);
}

// -- An autoencoder of shapes ------------------------------------------------------

fn encode_machine(nudges: &[(Buffer, usize, f64)]) -> (Machine, EncodePlan, gpu_shape::BlockPlan) {
    let plan = EncodePlan::new(2, 3, 2, 4, 5, 3, 1);
    let block = gpu_shape::BlockPlan::new(2, 2, 4, 0, 1);
    let mut rng = StdRng::seed_from_u64(51);
    let mut machine = Machine::new(1.0);
    machine.random(Buffer::Features, 30, &mut rng);
    machine.random(Buffer::Queries, 16, &mut rng);
    machine.random(Buffer::SurfaceWeight, 20, &mut rng);
    machine.random(Buffer::MomentsWeight, 24, &mut rng);
    machine.random(Buffer::GradMoments, 24, &mut rng);
    for sub in 0..3 {
        machine.random(Buffer::SubWeight(sub), 4, &mut rng);
    }
    machine.zeros(Buffer::SurfaceGrad, 20);
    machine.zeros(Buffer::MomentsGrad, 24);
    nudge(&mut machine, nudges);
    machine.run(&read_surface(&plan));
    machine.run(&gpu_shape::block_forward(&block));
    machine.run(&moments(&plan));
    (machine, plan, block)
}

#[test]
fn an_encoder_and_its_gradient_agree() {
    let (mut machine, plan, block) = encode_machine(&[]);
    machine.run(&moments_gradient(&plan));
    machine.run(&gpu_shape::block_backward(&block));
    machine.run(&surface_gradient(&plan));
    let loss = |nudges: &[(Buffer, usize, f64)]| {
        let (machine, _, _) = encode_machine(nudges);
        inner(machine.get(Buffer::Moments), machine.get(Buffer::GradMoments))
    };
    check_gradients(
        &machine,
        &[
            (Buffer::Queries, Buffer::GradQueries, 1.0),
            (Buffer::SurfaceWeight, Buffer::SurfaceGrad, -1.0),
            (Buffer::MomentsWeight, Buffer::MomentsGrad, -1.0),
        ],
        &loss,
    );
    let norms = machine.get(Buffer::GradNorms);
    for (slot, sub) in [(0, 2), (1, 0), (2, 1)] {
        for i in 0..4 {
            let buffer = Buffer::SubWeight(sub);
            let slope = (loss(&[(buffer, i, 1e-4)]) - loss(&[(buffer, i, -1e-4)])) / 2e-4;
            assert!((norms[slot * 4 + i] - slope).abs() < 1e-4, "slot {slot}");
        }
    }
}

fn decode_machine(nudges: &[(Buffer, usize, f64)]) -> (Machine, DecodePlan) {
    let plan = DecodePlan::new(2, 3, 2, 4, 5, 3);
    let mut rng = StdRng::seed_from_u64(61);
    let mut machine = Machine::new(1.0);
    machine.random(Buffer::Latent, 12, &mut rng);
    machine.random(Buffer::Features, 30, &mut rng);
    machine.random(Buffer::LatentWeight, 12, &mut rng);
    machine.random(Buffer::PointWeight, 20, &mut rng);
    machine.random(Buffer::DistanceWeight, 4, &mut rng);
    machine.random(Buffer::ColorWeight, 12, &mut rng);
    machine.random(Buffer::GradDistances, 6, &mut rng);
    machine.random(Buffer::GradColors, 18, &mut rng);
    machine.random(Buffer::SubWeight(0), 4, &mut rng);
    machine.random(Buffer::SubWeight(1), 4, &mut rng);
    machine.zeros(Buffer::LatentWeightGrad, 12);
    machine.zeros(Buffer::PointGrad, 20);
    machine.zeros(Buffer::DistanceGrad, 4);
    machine.zeros(Buffer::ColorGrad, 12);
    nudge(&mut machine, nudges);
    machine.run(&decode_train(&plan));
    machine.run(&colors(&plan));
    (machine, plan)
}

#[test]
fn a_decoder_and_its_gradient_agree() {
    let (mut machine, plan) = decode_machine(&[]);
    machine.run(&decode_backward(&plan, 6, Some((6, 3))).unwrap());
    let loss = |nudges: &[(Buffer, usize, f64)]| {
        let (machine, _) = decode_machine(nudges);
        inner(machine.get(Buffer::Distances), machine.get(Buffer::GradDistances))
            + inner(machine.get(Buffer::Colors), machine.get(Buffer::GradColors))
    };
    check_gradients(
        &machine,
        &[
            (Buffer::Latent, Buffer::GradLatent, 1.0),
            (Buffer::LatentWeight, Buffer::LatentWeightGrad, -1.0),
            (Buffer::PointWeight, Buffer::PointGrad, -1.0),
            (Buffer::DistanceWeight, Buffer::DistanceGrad, -1.0),
            (Buffer::ColorWeight, Buffer::ColorGrad, -1.0),
        ],
        &loss,
    );
}

#[test]
fn a_batch_of_shapes_that_does_not_divide_is_refused() {
    let message = |error: NetworkError| match error {
        NetworkError::InvalidConfig(message) => message,
        other => format!("{other:?}"),
    };
    assert_eq!(split_surface(12, 3).unwrap(), 4);
    assert!(split_surface(13, 3).is_err());
    assert!(split_surface(0, 3).is_err());
    assert!(split_surface(12, 0).is_err());
    assert_eq!(split_queries(8, 3, 10, 2, 4, 3).unwrap(), 5);
    assert_eq!(
        message(split_queries(7, 3, 10, 2, 4, 3).unwrap_err()),
        "the batch has 7 latent rows and 10 query rows for 2 shapes; expected 8 latent rows and equal query counts"
    );
    let (_, plan) = decode_machine(&[]);
    assert_eq!(
        message(decode_backward(&plan, 5, None).unwrap_err()),
        "6 query points were decoded and 5 gradients came back"
    );
    assert_eq!(
        message(decode_backward(&plan, 6, Some((6, 4))).unwrap_err()),
        "the colour gradient is [6, 4] and should be [6, 3]"
    );
}
