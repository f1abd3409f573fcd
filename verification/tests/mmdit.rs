//! A denoiser: its configuration, its checkpoint, its positions and its pass.
use rusting_brain::error::NetworkError;
use rusting_brain::matrix::Matrix;
use rusting_brain::mmdit::DitConfig;
use rusting_brain::mmdit_layers::{
    attention, columns, concatenate, concatenate_columns, split, stacked, swap_halves, triples,
    Dense,
};
use rusting_brain::mmdit_load::{dense, read_at, Piece, Slot};
use rusting_brain::mmdit_names::Layout;
use rusting_brain::mmdit_norms::{gated_add, modulate, norm_parts};
use rusting_brain::mmdit_pass::{conditioned, forward_with, Call, Op, PassShape, Tensor};
use rusting_brain::mmdit_positions::{Positions, Turn};
use std::collections::BTreeMap;

type Checkpoint = BTreeMap<String, (Vec<usize>, Vec<f32>)>;

fn tiny() -> DitConfig {
    DitConfig {
        in_channels: 4,
        out_channels: 4,
        d_model: 16,
        num_heads: 2,
        double_blocks: 2,
        single_blocks: 2,
        mlp_ratio: Some("2.0".to_string()),
        text_dim: 8,
        pooled_dim: 8,
        axes_dim: vec![4, 4],
        theta: Some("10000.0".to_string()),
        guidance: false,
        eps: Some("0.000001".to_string()),
    }
}

const MLP: usize = 32;
const EPS: f32 = 1e-6;

/// A checkpoint holding every tensor a model reads, under the first spelling.
fn tensors(config: &DitConfig) -> Checkpoint {
    let mut out: Checkpoint = BTreeMap::new();
    let mut add = |name: String, shape: Vec<usize>| {
        let count = shape.iter().product::<usize>();
        let values = (0..count).map(|index| ((index % 11) as f32 - 5.0) * 0.03).collect();
        out.insert(name, (shape, values));
    };
    let linear =
        |name: &str, input: usize, output: usize, add: &mut dyn FnMut(String, Vec<usize>)| {
            add(format!("{name}.weight"), vec![output, input]);
            add(format!("{name}.bias"), vec![output]);
        };

    let (dim, mlp, head) = (config.d_model, MLP, config.head_dim());
    linear("img_in", config.in_channels, dim, &mut add);
    linear("txt_in", config.text_dim, dim, &mut add);
    linear("time_in.in_layer", 256, dim, &mut add);
    linear("time_in.out_layer", dim, dim, &mut add);
    linear("vector_in.in_layer", config.pooled_dim, dim, &mut add);
    linear("vector_in.out_layer", dim, dim, &mut add);
    if config.guidance {
        linear("guidance_in.in_layer", 256, dim, &mut add);
        linear("guidance_in.out_layer", dim, dim, &mut add);
    }
    for index in 0..config.double_blocks {
        let base = format!("double_blocks.{index}");
        for side in ["img", "txt"] {
            linear(&format!("{base}.{side}_mod.lin"), dim, 6 * dim, &mut add);
            linear(&format!("{base}.{side}_attn.qkv"), dim, 3 * dim, &mut add);
            add(format!("{base}.{side}_attn.norm.query_norm.scale"), vec![head]);
            add(format!("{base}.{side}_attn.norm.key_norm.scale"), vec![head]);
            linear(&format!("{base}.{side}_attn.proj"), dim, dim, &mut add);
            linear(&format!("{base}.{side}_mlp.0"), dim, mlp, &mut add);
            linear(&format!("{base}.{side}_mlp.2"), mlp, dim, &mut add);
        }
    }
    for index in 0..config.single_blocks {
        let base = format!("single_blocks.{index}");
        linear(&format!("{base}.modulation.lin"), dim, 3 * dim, &mut add);
        linear(&format!("{base}.linear1"), dim, 3 * dim + mlp, &mut add);
        linear(&format!("{base}.linear2"), dim + mlp, dim, &mut add);
        add(format!("{base}.norm.query_norm.scale"), vec![head]);
        add(format!("{base}.norm.key_norm.scale"), vec![head]);
    }
    linear("final_layer.adaLN_modulation.1", dim, 2 * dim, &mut add);
    linear("final_layer.linear", dim, config.out_channels, &mut add);
    out
}

fn rename(source: &Checkpoint, out: &mut Checkpoint, from: &str, to: &str) {
    for suffix in ["weight", "bias"] {
        out.insert(format!("{to}.{suffix}"), source[&format!("{from}.{suffix}")].clone());
    }
}

/// A projection of several stacked outputs, cut back into its parts.
fn cut(source: &Checkpoint, out: &mut Checkpoint, from: &str, parts: &[(String, usize)]) {
    let (shape, values) = &source[&format!("{from}.weight")];
    let (_, bias) = &source[&format!("{from}.bias")];
    let width = shape[1];
    let mut cursor = 0;
    for (name, rows) in parts {
        let weight = values[cursor * width..(cursor + rows) * width].to_vec();
        out.insert(format!("{name}.weight"), (vec![*rows, width], weight));
        out.insert(format!("{name}.bias"), (vec![*rows], bias[cursor..cursor + rows].to_vec()));
        cursor += rows;
    }
}

/// The same weights under the second spelling.
fn diffusers_tensors(config: &DitConfig) -> Checkpoint {
    let source = tensors(config);
    let mut out: Checkpoint = BTreeMap::new();
    let dim = config.d_model;
    rename(&source, &mut out, "img_in", "x_embedder");
    rename(&source, &mut out, "txt_in", "context_embedder");
    for (from, to) in [("time_in", "timestep_embedder"), ("vector_in", "text_embedder")] {
        for (first, second) in [("in_layer", "linear_1"), ("out_layer", "linear_2")] {
            let to = format!("time_text_embed.{to}.{second}");
            rename(&source, &mut out, &format!("{from}.{first}"), &to);
        }
    }
    for index in 0..config.double_blocks {
        let from = format!("double_blocks.{index}");
        let to = format!("transformer_blocks.{index}");
        for side in ["img", "txt"] {
            let image = side == "img";
            let pick = |a: &str, b: &str| format!("{to}.{}", if image { a } else { b });
            let modulation = pick("norm1.linear", "norm1_context.linear");
            rename(&source, &mut out, &format!("{from}.{side}_mod.lin"), &modulation);
            let parts: Vec<(String, usize)> = if image {
                ["to_q", "to_k", "to_v"].map(|part| (format!("{to}.attn.{part}"), dim)).to_vec()
            } else {
                ["add_q_proj", "add_k_proj", "add_v_proj"]
                    .map(|part| (format!("{to}.attn.{part}"), dim))
                    .to_vec()
            };
            cut(&source, &mut out, &format!("{from}.{side}_attn.qkv"), &parts);
            for (part, plain, added) in [
                ("query_norm", "attn.norm_q.weight", "attn.norm_added_q.weight"),
                ("key_norm", "attn.norm_k.weight", "attn.norm_added_k.weight"),
            ] {
                let scale = source[&format!("{from}.{side}_attn.norm.{part}.scale")].clone();
                out.insert(pick(plain, added), scale);
            }
            let projection = pick("attn.to_out.0", "attn.to_add_out");
            rename(&source, &mut out, &format!("{from}.{side}_attn.proj"), &projection);
            let mlp_in = pick("ff.net.0.proj", "ff_context.net.0.proj");
            rename(&source, &mut out, &format!("{from}.{side}_mlp.0"), &mlp_in);
            let mlp_out = pick("ff.net.2", "ff_context.net.2");
            rename(&source, &mut out, &format!("{from}.{side}_mlp.2"), &mlp_out);
        }
    }
    for index in 0..config.single_blocks {
        let from = format!("single_blocks.{index}");
        let to = format!("single_transformer_blocks.{index}");
        rename(&source, &mut out, &format!("{from}.modulation.lin"), &format!("{to}.norm.linear"));
        let parts = [
            (format!("{to}.attn.to_q"), dim),
            (format!("{to}.attn.to_k"), dim),
            (format!("{to}.attn.to_v"), dim),
            (format!("{to}.proj_mlp"), MLP),
        ];
        cut(&source, &mut out, &format!("{from}.linear1"), &parts);
        rename(&source, &mut out, &format!("{from}.linear2"), &format!("{to}.proj_out"));
        for (part, other) in [("query_norm", "norm_q"), ("key_norm", "norm_k")] {
            let scale = source[&format!("{from}.norm.{part}.scale")].clone();
            out.insert(format!("{to}.attn.{other}.weight"), scale);
        }
    }
    // Scale before shift here, the other way round in the first spelling.
    let (shape, values) = &source["final_layer.adaLN_modulation.1.weight"];
    let (_, bias) = &source["final_layer.adaLN_modulation.1.bias"];
    let half = shape[0] / 2;
    let turn = |list: &Vec<f32>, by: usize| {
        let mut turned = list.clone();
        turned.rotate_left(by);
        turned
    };
    out.insert("norm_out.linear.weight".into(), (shape.clone(), turn(values, half * shape[1])));
    out.insert("norm_out.linear.bias".into(), (vec![shape[0]], turn(bias, half)));
    rename(&source, &mut out, "final_layer.linear", "proj_out");
    out
}

// -- A model -------------------------------------------------------------------

struct Prompt {
    text: Matrix<f32>,
    pooled: Vec<f32>,
    height: usize,
    width: usize,
    guidance: f32,
}

struct Model {
    config: DitConfig,
    layers: BTreeMap<String, Dense<f32>>,
    scales: BTreeMap<String, Vec<f32>>,
    prompt: Option<Prompt>,
}

fn key(slot: Slot, block: usize) -> String {
    format!("{slot:?} {block}")
}

fn tensor(file: &Checkpoint, name: &str) -> Result<(Vec<usize>, Vec<f32>), NetworkError> {
    match file.get(name) {
        Some(found) => Ok(found.clone()),
        None => Err(NetworkError::InvalidDataset(format!("no tensor named {name}"))),
    }
}

fn projection(file: &Checkpoint, name: &str) -> Result<Dense<f32>, NetworkError> {
    let (shape, values) = tensor(file, &format!("{name}.weight"))?;
    let bias = tensor(file, &format!("{name}.bias")).ok().map(|(_, bias)| bias);
    dense(name, values, &shape, bias)
}

fn load(file: &Checkpoint, prefix: &str, config: DitConfig) -> Result<Model, NetworkError> {
    config.check()?;
    let names: Vec<String> = file.keys().cloned().collect();
    let layout = Layout::detect(&names, prefix);
    let (mut layers, mut scales) = (BTreeMap::new(), BTreeMap::new());
    for part in read_at(layout, prefix, &config) {
        if !part.slot.quantizes() {
            scales.insert(key(part.slot, part.block), tensor(file, &part.names[0])?.1);
            continue;
        }
        let read: Result<Vec<Dense<f32>>, NetworkError> =
            part.names.iter().map(|name| projection(file, name)).collect();
        let pieces = match read {
            Ok(pieces) => pieces,
            Err(_) if part.slot.is_optional() => continue,
            Err(error) => return Err(error),
        };
        let whole = stacked(&pieces, &part.names[0], &part.names.join(", "), 0.0)?;
        let whole = if part.swapped { swap_halves(&whole) } else { whole };
        if part.slot == Slot::ImageIn {
            config.check_patches(whole.weight.cols, whole.weight.rows)?;
        }
        layers.insert(key(part.slot, part.block), whole);
    }
    Ok(Model { config, layers, scales, prompt: None })
}

fn apply(layer: &Dense<f32>, input: &Matrix<f32>) -> Matrix<f32> {
    let mut data = Vec::new();
    for r in 0..input.rows {
        for o in 0..layer.weight.rows {
            let sum: f32 =
                input.row(r).iter().zip(layer.weight.row(o)).map(|(a, b)| a * b).sum();
            data.push(sum + layer.bias.as_ref().map_or(0.0, |bias| bias[o]));
        }
    }
    Matrix::from_vec(input.rows, layer.weight.rows, data)
}

fn each(input: &Matrix<f32>, change: impl Fn(f32) -> f32) -> Matrix<f32> {
    Matrix::from_vec(input.rows, input.cols, input.data.iter().map(|v| change(*v)).collect())
}

fn silu(x: f32) -> f32 {
    x / (1.0 + (-x).exp())
}

fn gelu(x: f32) -> f32 {
    0.5 * x * (1.0 + (0.797_884_6 * (x + 0.044715 * x * x * x)).tanh())
}

fn sinusoid(time: f32, dim: usize) -> Matrix<f32> {
    let half = dim / 2;
    let mut values = vec![0.0; dim];
    for index in 0..half {
        let frequency = (-(10_000.0f32).ln() * index as f32 / half as f32).exp();
        values[index] = (time * frequency).cos();
        values[half + index] = (time * frequency).sin();
    }
    Matrix::from_vec(1, dim, values)
}

/// One row at a time brought to mean zero and length one, then scaled and
/// shifted by column.
fn modulated(tokens: &Matrix<f32>, shift: &Vec<f32>, scale: &Vec<f32>) -> Matrix<f32> {
    let normed = norm_parts(tokens, tokens.cols, tokens.rows, &|row: Vec<f32>| {
        let mean = row.iter().sum::<f32>() / row.len() as f32;
        let variance = row.iter().map(|v| (v - mean).powi(2)).sum::<f32>() / row.len() as f32;
        let inverse = (variance + EPS).sqrt().recip();
        row.iter().map(|v| (v - mean) * inverse).collect()
    });
    modulate(&normed, shift, scale, &|value: f32, shift: f32, scale: f32| {
        value * (1.0 + scale) + shift
    })
}

fn added(target: &Matrix<f32>, source: &Matrix<f32>, gate: &Vec<f32>) -> Matrix<f32> {
    let mut sum = copy(target);
    gated_add(&mut sum, source, gate, &|target: f32, source: f32, gate: f32| {
        target + gate * source
    });
    sum
}

impl Model {
    fn layer(&self, slot: Slot, block: usize) -> &Dense<f32> {
        &self.layers[&key(slot, block)]
    }

    fn normed(&self, values: Matrix<f32>, slot: Slot, block: usize) -> Matrix<f32> {
        let scale = &self.scales[&key(slot, block)];
        let parts = values.data.len() / scale.len();
        norm_parts(&values, scale.len(), parts, &|head: Vec<f32>| {
            let mean = head.iter().map(|v| v * v).sum::<f32>() / head.len() as f32;
            let inverse = (mean + EPS).sqrt().recip();
            head.iter().zip(scale).map(|(value, scale)| value * inverse * scale).collect()
        })
    }

    fn embed(&self, slots: [Slot; 2], input: &Matrix<f32>) -> Matrix<f32> {
        let hidden = apply(self.layer(slots[0], 0), input);
        apply(self.layer(slots[1], 0), &each(&hidden, silu))
    }

    fn has(&self, slot: Slot) -> bool {
        self.layers.contains_key(&key(slot, 0))
    }

    fn denoise(&self, patches: &Matrix<f32>, time: f32) -> Result<Matrix<f32>, NetworkError> {
        let prompt = conditioned(self.prompt.as_ref())?;
        let (config, text_len) = (&self.config, prompt.text.rows);
        let shape = PassShape {
            patches: patches.rows,
            text_len,
            tokens: text_len + patches.rows,
            in_channels: config.in_channels,
            out_channels: config.out_channels,
            text_dim: config.text_dim,
            d_model: config.d_model,
            packed: 3 * config.d_model,
            mlp_dim: MLP,
            fused: 3 * config.d_model + MLP,
            double_blocks: config.double_blocks,
            single_blocks: config.single_blocks,
            pooled: self.has(Slot::VectorInput) && self.has(Slot::VectorOutput),
            guidance: self.has(Slot::GuidanceInput),
        };
        let calls = forward_with(&shape, prompt.height, prompt.width)?;
        let positions = Positions::new(config, text_len, prompt.height, prompt.width);
        let mut values: BTreeMap<String, Matrix<f32>> = BTreeMap::new();
        let name = |tensor: Tensor| format!("{tensor:?}");
        values.insert(name(Tensor::Patches), copy(patches));
        values.insert(name(Tensor::Prompt), copy(&prompt.text));
        for call in calls {
            let made = self.step(&call, &values, prompt, time, &positions);
            assert_eq!((made.rows, made.cols), (call.out.rows, call.out.cols), "{call:?}");
            values.insert(name(call.out.value), made);
        }
        Ok(values.remove(&name(Tensor::Output)).unwrap())
    }

    fn step(
        &self,
        call: &Call,
        values: &BTreeMap<String, Matrix<f32>>,
        prompt: &Prompt,
        time: f32,
        positions: &Positions,
    ) -> Matrix<f32> {
        let (width, heads, block) = (self.config.d_model, self.config.num_heads, call.block);
        let text_len = prompt.text.rows;
        let get = |tensor: Tensor| &values[&format!("{tensor:?}")];
        let a = || get(call.a.value);
        let triple = |tensor: Tensor, chunks: usize, chunk: usize| {
            triples(&get(tensor).data, chunks).remove(chunk)
        };
        let side = |image: bool, piece: Piece| {
            if image {
                Slot::Image(piece)
            } else {
                Slot::Text(piece)
            }
        };
        let joined = |part: usize, norm: Option<Piece>| {
            let take = |tensor: Tensor, image: bool| {
                let values = columns(get(tensor), part * width, width);
                match norm {
                    Some(piece) => self.normed(values, side(image, piece), block),
                    None => values,
                }
            };
            concatenate(&take(call.a.value, false), &take(call.b.value, true))
        };
        match call.op {
            Op::EmbedTime => {
                self.embed([Slot::TimeInput, Slot::TimeOutput], &sinusoid(time * 1000.0, 256))
            }
            Op::EmbedPooled => {
                let pooled = Matrix::from_vec(1, prompt.pooled.len(), prompt.pooled.clone());
                let made = self.embed([Slot::VectorInput, Slot::VectorOutput], &pooled);
                added(a(), &made, &vec![1.0; width])
            }
            Op::EmbedGuidance => {
                let scale = sinusoid(prompt.guidance * 1000.0, 256);
                let made = self.embed([Slot::GuidanceInput, Slot::GuidanceOutput], &scale);
                added(a(), &made, &vec![1.0; width])
            }
            Op::EmbedPatches => apply(self.layer(Slot::ImageIn, 0), a()),
            Op::EmbedPrompt => apply(self.layer(Slot::TextIn, 0), a()),
            Op::Modulate => {
                let slot = match call.out.value {
                    Tensor::ImageModulation => Slot::Image(Piece::Modulation),
                    Tensor::TextModulation => Slot::Text(Piece::Modulation),
                    _ => Slot::SingleModulation,
                };
                let made = apply(self.layer(slot, block), &each(a(), silu));
                Matrix::from_vec(call.out.rows, call.out.cols, made.data)
            }
            Op::Project => {
                let image = call.a.value == Tensor::Image;
                let triple = triple(call.b.value, 2, 0);
                let normed = modulated(a(), &triple.shift, &triple.scale);
                apply(self.layer(side(image, Piece::Qkv), block), &normed)
            }
            Op::JoinQueries => joined(0, Some(Piece::QueryNorm)),
            Op::JoinKeys => joined(1, Some(Piece::KeyNorm)),
            Op::JoinValues => joined(2, None),
            Op::Rotate => {
                let mut turned = copy(a());
                positions.apply(&mut turned, heads, &turn);
                turned
            }
            Op::Attend => attend(a(), get(call.b.value), get(call.c.value), heads),
            Op::AddAttention => {
                let image = call.out.value == Tensor::Image;
                let (text, rest) = split(a(), text_len);
                let rows = if image { rest } else { text };
                let made = apply(self.layer(side(image, Piece::Projection), block), &rows);
                added(get(call.c.value), &made, &triple(call.b.value, 2, 0).gate)
            }
            Op::AddFeedForward => {
                let image = call.out.value == Tensor::Image;
                let triple = triple(call.b.value, 2, 1);
                let normed = modulated(a(), &triple.shift, &triple.scale);
                let hidden = apply(self.layer(side(image, Piece::MlpIn), block), &normed);
                let layer = self.layer(side(image, Piece::MlpOut), block);
                added(a(), &apply(layer, &each(&hidden, gelu)), &triple.gate)
            }
            Op::Concatenate => concatenate(a(), get(call.b.value)),
            Op::FuseIn => {
                let triple = triple(call.b.value, 1, 0);
                let normed = modulated(a(), &triple.shift, &triple.scale);
                apply(self.layer(Slot::FusedIn, block), &normed)
            }
            Op::SliceQueries => {
                self.normed(columns(a(), 0, width), Slot::SingleQueryNorm, block)
            }
            Op::SliceKeys => {
                self.normed(columns(a(), width, width), Slot::SingleKeyNorm, block)
            }
            Op::SliceValues => columns(a(), 2 * width, width),
            Op::SliceActivated => each(&columns(a(), 3 * width, MLP), gelu),
            Op::AddFused => {
                let both = concatenate_columns(a(), get(call.b.value));
                let made = apply(self.layer(Slot::FusedOut, block), &both);
                added(get(Tensor::Hidden), &made, &triple(call.c.value, 1, 0).gate)
            }
            Op::SplitImage => split(a(), text_len).1,
            Op::ModulateFinal => {
                let made = apply(self.layer(Slot::FinalModulation, 0), &each(a(), silu));
                Matrix::from_vec(2, width, made.data)
            }
            Op::ProjectOut => {
                let shifts = get(call.b.value);
                let normed = modulated(a(), &shifts.row(0).to_vec(), &shifts.row(1).to_vec());
                apply(self.layer(Slot::FinalOut, 0), &normed)
            }
        }
    }
}

fn turn(turn: Turn, a: f32, b: f32) -> (f32, f32) {
    let frequency = 10_000.0f32.powf(-2.0 * turn.index as f32 / turn.dim as f32);
    let angle = turn.position as f32 * frequency;
    (a * angle.cos() - b * angle.sin(), a * angle.sin() + b * angle.cos())
}

fn copy(matrix: &Matrix<f32>) -> Matrix<f32> {
    Matrix::from_vec(matrix.rows, matrix.cols, matrix.data.clone())
}

fn attend(
    queries: &Matrix<f32>,
    keys: &Matrix<f32>,
    values: &Matrix<f32>,
    heads: usize,
) -> Matrix<f32> {
    let width = queries.cols / heads;
    let mut out = Matrix::new(queries.rows, queries.cols, 0.0);
    let looks =
        attention(queries.rows, keys.rows, queries.cols, keys.cols, heads, heads, false);
    for look in looks {
        let scores: Vec<f32> = (0..look.visible)
            .map(|k| {
                let key = look.keys + k * keys.cols;
                let dot: f32 =
                    (0..width).map(|c| queries.data[look.query + c] * keys.data[key + c]).sum();
                (dot / (width as f32).sqrt()).exp()
            })
            .collect();
        let total: f32 = scores.iter().sum();
        for c in 0..width {
            out.data[look.target + c] = (0..look.visible)
                .map(|k| scores[k] / total * values.data[look.keys + k * values.cols + c])
                .sum();
        }
    }
    out
}

fn prompt(config: &DitConfig, height: usize, width: usize) -> Prompt {
    Prompt {
        text: Matrix::from_vec(
            3,
            config.text_dim,
            (0..3 * config.text_dim).map(|index| (index as f32 * 0.37).sin()).collect(),
        ),
        pooled: (0..config.pooled_dim).map(|index| (index as f32 * 0.11).cos()).collect(),
        height,
        width,
        guidance: 3.5,
    }
}

fn model(config: DitConfig) -> Model {
    load(&tensors(&config), "", config).unwrap()
}

fn waves() -> Matrix<f32> {
    Matrix::from_vec(6, 4, (0..24).map(|index| (index as f32 * 0.2).sin()).collect())
}

fn differs(first: &Matrix<f32>, second: &Matrix<f32>) -> bool {
    first.data.iter().zip(&second.data).any(|(a, b)| (a - b).abs() > 1e-5)
}

#[test]
fn the_two_published_spellings_of_a_checkpoint_load_to_the_same_model() {
    let config = tiny();
    let mut diffusers = load(&diffusers_tensors(&config), "", tiny()).unwrap();
    let mut reference = model(tiny());
    assert_eq!(
        diffusers.layers.keys().collect::<Vec<_>>(),
        reference.layers.keys().collect::<Vec<_>>()
    );

    diffusers.prompt = Some(prompt(&config, 2, 3));
    reference.prompt = Some(prompt(&config, 2, 3));

    let expected = reference.denoise(&waves(), 0.7).unwrap();
    let actual = diffusers.denoise(&waves(), 0.7).unwrap();
    assert_eq!((actual.rows, actual.cols), (expected.rows, expected.cols));
    for (actual, expected) in actual.data.iter().zip(&expected.data) {
        assert!((actual - expected).abs() < 1e-5, "{actual} is not {expected}");
    }
}

#[test]
fn a_distilled_guidance_scale_reaches_the_prediction() {
    let config = DitConfig { guidance: true, ..tiny() };
    let mut model = model(DitConfig { guidance: true, ..tiny() });

    model.prompt = Some(Prompt { guidance: 3.5, ..prompt(&config, 2, 3) });
    let first = model.denoise(&waves(), 0.7).unwrap();
    model.prompt = Some(Prompt { guidance: 7.0, ..prompt(&config, 2, 3) });
    let second = model.denoise(&waves(), 0.7).unwrap();
    assert!(differs(&first, &second));
}

#[test]
fn a_denoiser_reads_a_checkpoint_and_predicts_a_velocity_per_patch() {
    let config = tiny();
    let mut model = model(tiny());
    model.prompt = Some(prompt(&config, 2, 3));

    let velocity = model.denoise(&waves(), 0.8).unwrap();
    assert_eq!((velocity.rows, velocity.cols), (6, config.out_channels));
    assert!(velocity.data.iter().all(|value| value.is_finite()));

    let other = model.denoise(&waves(), 0.2).unwrap();
    assert!(differs(&velocity, &other));
}

#[test]
fn the_prompt_and_the_patch_grid_both_change_the_prediction() {
    let config = tiny();
    let mut model = model(tiny());
    let patches = Matrix::from_vec(6, config.in_channels, vec![0.1; 24]);

    model.prompt = Some(prompt(&config, 2, 3));
    let first = model.denoise(&patches, 0.5).unwrap();

    let mut other = prompt(&config, 2, 3);
    other.pooled[0] += 1.0;
    model.prompt = Some(other);
    let second = model.denoise(&patches, 0.5).unwrap();
    assert!(differs(&first, &second));

    // Positions are two-dimensional, so the same patches at a different aspect
    // ratio denoise differently.
    model.prompt = Some(prompt(&config, 3, 2));
    let third = model.denoise(&patches, 0.5).unwrap();
    assert!(differs(&first, &third));
}

#[test]
fn a_model_without_a_prompt_or_with_the_wrong_grid_refuses() {
    let config = tiny();
    let mut model = model(tiny());
    let patches = Matrix::from_vec(6, config.in_channels, vec![0.0; 24]);
    assert!(model.denoise(&patches, 0.5).is_err());

    model.prompt = Some(prompt(&config, 2, 2));
    assert!(matches!(
        model.denoise(&patches, 0.5),
        Err(NetworkError::InvalidTarget { expected: 4, actual: 6 })
    ));

    let broken = DitConfig { axes_dim: vec![4, 6], ..tiny() };
    assert!(load(&tensors(&config), "", broken).is_err());
    // A prefix that is not in the file is an error, not an empty model.
    assert!(load(&tensors(&config), "model.diffusion_model.", config).is_err());
}

#[test]
fn a_model_without_a_pooled_prompt_does_without_its_embedder() {
    let config = tiny();
    let mut file = tensors(&config);
    file.retain(|name, _| !name.starts_with("vector_in"));
    let mut model = load(&file, "", tiny()).unwrap();
    assert!(!model.has(Slot::VectorInput));
    model.prompt = Some(prompt(&config, 2, 3));
    assert!(model.denoise(&waves(), 0.5).is_ok());
}

#[test]
fn the_rotary_table_leaves_text_alone_and_turns_patches() {
    let config = tiny();
    let positions = Positions::new(&config, 2, 2, 2);
    let mut values = Matrix::from_vec(
        6,
        config.d_model,
        (0..6 * config.d_model).map(|index| index as f32).collect(),
    );
    let before = copy(&values);
    positions.apply(&mut values, config.num_heads, &turn);

    assert_eq!(values.row(0), before.row(0));
    assert_eq!(values.row(1), before.row(1));
    assert_eq!(values.row(2), before.row(2));
    assert_ne!(values.row(3), before.row(3));
    assert_ne!(values.row(4), before.row(4));

    let norm = |row: &[f32]| row.iter().map(|value| value * value).sum::<f32>();
    assert!((norm(values.row(5)) - norm(before.row(5))).abs() < 1e-2);
}

// -- Configuration ---------------------------------------------------------------

fn read(text: &str) -> Option<Result<DitConfig, NetworkError>> {
    DitConfig::from_bytes(text.as_bytes())
}

fn complaint(outcome: Result<DitConfig, NetworkError>) -> String {
    match outcome {
        Err(NetworkError::InvalidDataset(message)) => message,
        other => panic!("{other:?}"),
    }
}

#[test]
fn a_configuration_is_read_from_its_file() {
    let config = read(
        r#"{
          "in_channels": 64, "num_attention_heads": 24, "attention_head_dim": 128,
          "num_layers": 19, "num_single_layers": 38, "joint_attention_dim": 4096,
          "pooled_projection_dim": 768, "axes_dims_rope": [16, 56, 56],
          "guidance_embeds": true
        }"#,
    )
    .unwrap()
    .unwrap();
    assert_eq!(config.d_model, 3072);
    assert_eq!(config.head_dim(), 128);
    assert_eq!(config.axes_dim, vec![16, 56, 56]);
    assert!(config.guidance);
    assert!(config.check().is_ok());
    let published = DitConfig::published();
    assert_eq!(published.d_model, 3072);
    assert!(published.check().is_ok());
}

#[test]
fn a_configuration_that_lacks_something_says_what() {
    assert!(complaint(read("{}").unwrap()).starts_with("transformer config.json has no "));
    let broken = complaint(read("{\"in_channels\": ").unwrap());
    assert!(broken.starts_with("transformer config.json: EOF while parsing"), "{broken}");
    let huge = "{\"num_attention_heads\": 4294967296, \"attention_head_dim\": 4294967297}";
    assert_eq!(complaint(read(huge).unwrap()), "transformer config.json has no in_channels");
    // A width that cannot be counted matters only once nothing is missing.
    let wide = |axes: &str, text: &str| {
        read(&format!(
            r#"{{"num_attention_heads": 4294967296, "attention_head_dim": 4294967297,
                "in_channels": 4, "axes_dims_rope": {axes}, "num_layers": 1{text}}}"#
        ))
    };
    let dim = r#", "joint_attention_dim": 8"#;
    assert_eq!(
        complaint(wide(r#"["x"]"#, dim).unwrap()),
        "transformer config.json has no a numeric axes_dims_rope"
    );
    assert_eq!(
        complaint(wide("[2]", "").unwrap()),
        "transformer config.json has no joint_attention_dim"
    );
    assert!(wide("[2]", dim).is_none());
}

#[test]
fn a_shape_no_denoiser_can_have_is_refused() {
    let message = |config: DitConfig| match config.check() {
        Err(NetworkError::InvalidConfig(message)) => message,
        other => panic!("{other:?}"),
    };
    assert_eq!(
        message(DitConfig { num_heads: 3, ..tiny() }),
        "3 heads do not divide 16 model dimensions"
    );
    assert_eq!(
        message(DitConfig { axes_dim: vec![3, 5], ..tiny() }),
        "the position axes [3, 5] must be even and sum to the head's 8 dimensions"
    );
    match tiny().check_patches(4, 17) {
        Err(NetworkError::InvalidConfig(message)) => assert_eq!(
            message,
            "the checkpoint's patch embedding maps 4 channels to 17, and the configuration says 4 to 16"
        ),
        other => panic!("{other:?}"),
    }
}

// -- Pieces ------------------------------------------------------------------

#[test]
fn sequences_are_joined_and_taken_apart() {
    let first = Matrix::from_vec(1, 2, vec![1, 2]);
    let second = Matrix::from_vec(2, 2, vec![3, 4, 5, 6]);
    let both = concatenate(&first, &second);
    assert_eq!(both.data, vec![1, 2, 3, 4, 5, 6]);
    let (left, right) = split(&both, 1);
    assert_eq!(left, first);
    assert_eq!(right, second);
    assert_eq!(columns(&both, 1, 1).data, vec![2, 4, 6]);
    let wide = concatenate_columns(&columns(&both, 1, 1), &both);
    assert_eq!(wide.data, vec![2, 1, 2, 4, 3, 4, 6, 5, 6]);
}

#[test]
fn rows_are_modulated_gated_and_normed_part_by_part() {
    let rows = Matrix::from_vec(2, 2, vec![1, 2, 3, 4]);
    let made = modulate(&rows, &vec![10, 20], &vec![2, 3], &|v: i32, shift: i32, scale: i32| {
        v * scale + shift
    });
    assert_eq!(made.data, vec![12, 26, 16, 32]);
    let mut target = Matrix::from_vec(2, 2, vec![1, 1, 1, 1]);
    gated_add(&mut target, &rows, &vec![10, 100], &|t: i32, s: i32, g: i32| t + g * s);
    assert_eq!(target.data, vec![11, 201, 31, 401]);
    let wide = Matrix::from_vec(1, 6, vec![1, 2, 3, 4, 5, 6]);
    let turned = norm_parts(&wide, 2, 3, &|part: Vec<i32>| vec![part[1], part[0]]);
    assert_eq!(turned.data, vec![2, 1, 4, 3, 6, 5]);
}

#[test]
fn a_modulation_is_cut_into_shift_scale_and_gate() {
    let list = triples(&vec![1, 2, 3, 4, 5, 6, 7, 8, 9, 10, 11, 12], 2);
    assert_eq!(list[0].shift, vec![1, 2]);
    assert_eq!(list[0].scale, vec![3, 4]);
    assert_eq!(list[0].gate, vec![5, 6]);
    assert_eq!(list[1].gate, vec![11, 12]);
}

#[test]
fn halves_change_places_and_back() {
    let layer = dense("x", vec![1, 2, 3, 4], &vec![2, 2], Some(vec![8, 9])).unwrap();
    let swapped = swap_halves(&layer);
    assert_eq!(swapped.weight.data, vec![3, 4, 1, 2]);
    assert_eq!(swapped.bias, Some(vec![9, 8]));
    assert_eq!(swap_halves(&swapped).weight.data, layer.weight.data);
}

#[test]
fn projections_of_one_input_are_stacked() {
    let first = dense("q", vec![1, 2], &vec![1, 2], None).unwrap();
    let second = dense("k", vec![3, 4, 5, 6], &vec![2, 2], Some(vec![7, 8])).unwrap();
    let other = dense("v", vec![1, 2, 3], &vec![1, 3], None).unwrap();
    let whole = stacked(&vec![first, second], "b", "q, k", 0).unwrap();
    assert_eq!(whole.weight.data, vec![1, 2, 3, 4, 5, 6]);
    assert_eq!(whole.bias, Some(vec![0, 7, 8]));
    match stacked(&vec![whole, other], "b", "q, v", 0) {
        Err(NetworkError::InvalidConfig(message)) => assert_eq!(
            message,
            "b: the projections q, v read the same input but disagree about its width"
        ),
        other => panic!("{other:?}"),
    }
    match dense("b.x", vec![1, 2, 3], &vec![3, 1, 1], None) {
        Err(NetworkError::InvalidConfig(message)) => {
            assert_eq!(message, "b.x.weight is [3, 1, 1], which is not a linear layer")
        }
        other => panic!("{other:?}"),
    }
}

#[test]
fn a_causal_query_sees_the_keys_up_to_its_own() {
    let looks = attention(3, 3, 4, 2, 2, 1, true);
    let seen: Vec<usize> = looks.iter().map(|look| look.visible).collect();
    assert_eq!(seen, vec![1, 2, 3, 1, 2, 3]);
    assert_eq!(looks[4].query, 6);
    assert_eq!(looks[4].target, 6);
    assert_eq!(looks[4].keys, 0);
}
