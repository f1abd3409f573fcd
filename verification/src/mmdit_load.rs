//! What a denoiser reads from a checkpoint, in order: every projection and
//! every scale, and the tensors each of them is made of under either spelling.
use crate::error::{Fault, NetworkError};
use crate::matrix::Matrix;
use crate::mmdit::{show_list, shown_list, DitConfig};
use crate::mmdit_layers::Dense;
use crate::mmdit_names::{below, stream_of, Layout, StreamView};
use crate::text::{decimal, with_text};
use vstd::prelude::*;

verus! {

/// What a part of a stream is for.
#[derive(Clone, Copy, Debug, PartialEq, Eq, Structural)]
pub enum Piece {
    Modulation,
    Qkv,
    QueryNorm,
    KeyNorm,
    Projection,
    MlpIn,
    MlpOut,
}

/// What a part of a denoiser is for.
#[derive(Clone, Copy, Debug, PartialEq, Eq, Structural)]
pub enum Slot {
    /// The two sides of a block of two streams.
    Image(Piece),
    Text(Piece),
    /// A block of one stream.
    SingleModulation,
    FusedIn,
    FusedOut,
    SingleQueryNorm,
    SingleKeyNorm,
    /// The ends of the model, and what its conditioning goes through.
    ImageIn,
    FinalModulation,
    TextIn,
    TimeInput,
    TimeOutput,
    VectorInput,
    VectorOutput,
    GuidanceInput,
    GuidanceOutput,
    FinalOut,
}

impl Slot {
    /// Whether a part is the scale of a norm, and no projection.
    pub open spec fn is_scale(self) -> bool {
        match self {
            Slot::Image(Piece::QueryNorm) | Slot::Image(Piece::KeyNorm) => true,
            Slot::Text(Piece::QueryNorm) | Slot::Text(Piece::KeyNorm) => true,
            Slot::SingleQueryNorm | Slot::SingleKeyNorm => true,
            _ => false,
        }
    }

    /// Whether a part can be stored at one byte per value: every projection
    /// can. The scales of the norms stay as they are.
    pub fn quantizes(self) -> (yes: bool)
        ensures
            yes == !self.is_scale(),
    {
        match self {
            Slot::Image(Piece::QueryNorm) | Slot::Image(Piece::KeyNorm) => false,
            Slot::Text(Piece::QueryNorm) | Slot::Text(Piece::KeyNorm) => false,
            Slot::SingleQueryNorm | Slot::SingleKeyNorm => false,
            _ => true,
        }
    }

    /// Whether a model can do without the part: one that takes no pooled
    /// prompt has no embedder for one, and the file says so by lacking it.
    pub fn is_optional(self) -> (yes: bool)
        ensures
            yes == (self == Slot::VectorInput || self == Slot::VectorOutput),
    {
        match self {
            Slot::VectorInput | Slot::VectorOutput => true,
            _ => false,
        }
    }
}

/// A part of a denoiser and the tensors it is made of: one, or several that
/// are stacked.
#[derive(Debug)]
pub struct Part {
    pub slot: Slot,
    /// The block the part belongs to, or zero.
    pub block: usize,
    pub names: Vec<String>,
    /// Whether the two halves of the part's outputs change places.
    pub swapped: bool,
}

/// What a [`Part`] says.
pub ghost struct PartView {
    pub slot: Slot,
    pub block: int,
    pub names: Seq<Seq<char>>,
    pub swapped: bool,
}

impl View for Part {
    type V = PartView;

    open spec fn view(&self) -> PartView {
        PartView {
            slot: self.slot,
            block: self.block as int,
            names: self.names@.map_values(|name: String| name@),
            swapped: self.swapped,
        }
    }
}

/// What a list of parts says.
pub open spec fn said(parts: Seq<Part>) -> Seq<PartView> {
    parts.map_values(|part: Part| part@)
}

/// A name below a block's.
pub open spec fn under(base: Seq<char>, name: Seq<char>) -> Seq<char> {
    base + "."@ + name
}

/// A part of one tensor.
pub open spec fn single_part(slot: Slot, block: int, base: Seq<char>, name: Seq<char>) -> PartView {
    PartView { slot, block, names: seq![under(base, name)], swapped: false }
}

fn part_of(slot: Slot, block: usize, base: &str, name: &str) -> (part: Part)
    ensures
        part@ == single_part(slot, block as int, base@, name@),
{
    let mut names: Vec<String> = Vec::new();
    names.push(below(base, name));
    let part = Part { slot, block, names, swapped: false };
    assert(part@.names =~= seq![under(base@, name@)]);
    part
}

// -- Blocks ------------------------------------------------------------------

/// What a block's tensors start with.
pub open spec fn base_of(layout: Layout, prefix: Seq<char>, double: bool, index: int) -> Seq<char> {
    prefix + (match (layout, double) {
        (Layout::Reference, true) => "double_blocks"@,
        (Layout::Reference, false) => "single_blocks"@,
        (Layout::Diffusers, true) => "transformer_blocks"@,
        (Layout::Diffusers, false) => "single_transformer_blocks"@,
    }) + "."@ + decimal(index as nat)
}

/// A piece of one side of a block.
pub open spec fn side(image: bool, piece: Piece) -> Slot {
    if image {
        Slot::Image(piece)
    } else {
        Slot::Text(piece)
    }
}

/// The tensors the queries, keys and values are made of.
pub open spec fn qkv_names(base: Seq<char>, names: StreamView) -> Seq<Seq<char>> {
    match (names.keys, names.values) {
        (Some(keys), Some(values)) => seq![
            under(base, names.queries),
            under(base, keys),
            under(base, values),
        ],
        _ => seq![under(base, names.queries)],
    }
}

/// The parts of one side of a block.
pub open spec fn stream_parts(layout: Layout, base: Seq<char>, image: bool, block: int) -> Seq<
    PartView,
> {
    let names = stream_of(layout, image);
    seq![
        single_part(side(image, Piece::Modulation), block, base, names.modulation),
        PartView {
            slot: side(image, Piece::Qkv),
            block,
            names: qkv_names(base, names),
            swapped: false,
        },
        single_part(side(image, Piece::QueryNorm), block, base, names.query_norm),
        single_part(side(image, Piece::KeyNorm), block, base, names.key_norm),
        single_part(side(image, Piece::Projection), block, base, names.projection),
        single_part(side(image, Piece::MlpIn), block, base, names.mlp_in),
        single_part(side(image, Piece::MlpOut), block, base, names.mlp_out),
    ]
}

fn slot_of(image: bool, piece: Piece) -> (slot: Slot)
    ensures
        slot == side(image, piece),
{
    if image {
        Slot::Image(piece)
    } else {
        Slot::Text(piece)
    }
}

/// The parts of one side of a block of two streams.
pub fn read_stream(layout: Layout, base: &str, image: bool, block: usize) -> (parts: Vec<Part>)
    ensures
        said(parts@) == stream_parts(layout, base@, image, block as int),
{
    let names = layout.stream(image);
    let mut qkv: Vec<String> = Vec::new();
    qkv.push(below(base, names.queries));
    match (names.keys, names.values) {
        (Some(keys), Some(values)) => {
            qkv.push(below(base, keys));
            qkv.push(below(base, values));
        },
        _ => {},
    }
    let fused = Part { slot: slot_of(image, Piece::Qkv), block, names: qkv, swapped: false };
    assert(fused@.names =~= qkv_names(base@, stream_of(layout, image)));
    let parts: Vec<Part> = vec![
        part_of(slot_of(image, Piece::Modulation), block, base, names.modulation),
        fused,
        part_of(slot_of(image, Piece::QueryNorm), block, base, names.query_norm),
        part_of(slot_of(image, Piece::KeyNorm), block, base, names.key_norm),
        part_of(slot_of(image, Piece::Projection), block, base, names.projection),
        part_of(slot_of(image, Piece::MlpIn), block, base, names.mlp_in),
        part_of(slot_of(image, Piece::MlpOut), block, base, names.mlp_out),
    ];
    assert(said(parts@) =~= stream_parts(layout, base@, image, block as int));
    parts
}

/// The tensors of a fused projection.
pub open spec fn fused_names(layout: Layout, base: Seq<char>) -> Seq<Seq<char>> {
    match layout {
        Layout::Reference => seq![under(base, "linear1"@)],
        Layout::Diffusers => seq![
            under(base, "attn.to_q"@),
            under(base, "attn.to_k"@),
            under(base, "attn.to_v"@),
            under(base, "proj_mlp"@),
        ],
    }
}

/// The parts of a block of one stream.
pub open spec fn single_parts(layout: Layout, base: Seq<char>, block: int) -> Seq<PartView> {
    let reference = layout == Layout::Reference;
    seq![
        single_part(
            Slot::SingleModulation,
            block,
            base,
            if reference {
                "modulation.lin"@
            } else {
                "norm.linear"@
            },
        ),
        PartView { slot: Slot::FusedIn, block, names: fused_names(layout, base), swapped: false },
        single_part(
            Slot::FusedOut,
            block,
            base,
            if reference {
                "linear2"@
            } else {
                "proj_out"@
            },
        ),
        single_part(
            Slot::SingleQueryNorm,
            block,
            base,
            if reference {
                "norm.query_norm.scale"@
            } else {
                "attn.norm_q.weight"@
            },
        ),
        single_part(
            Slot::SingleKeyNorm,
            block,
            base,
            if reference {
                "norm.key_norm.scale"@
            } else {
                "attn.norm_k.weight"@
            },
        ),
    ]
}

/// The parts of a block of one stream.
pub fn read_single(layout: Layout, base: &str, block: usize) -> (parts: Vec<Part>)
    ensures
        said(parts@) == single_parts(layout, base@, block as int),
{
    let names = layout.single();
    let mut stacked: Vec<String> = Vec::new();
    let mut i: usize = 0;
    while i < names.fused_in.len()
        invariant
            i <= names.fused_in@.len() == fused_names(layout, base@).len(),
            forall|k: int|
                0 <= k < names.fused_in@.len() ==> under(base@, #[trigger] names.fused_in@[k]@)
                    == fused_names(layout, base@)[k],
            stacked@.len() == i,
            forall|k: int|
                0 <= k < i ==> (#[trigger] stacked@[k])@ == fused_names(layout, base@)[k],
        decreases names.fused_in.len() - i,
    {
        stacked.push(below(base, names.fused_in[i]));
        i = i + 1;
    }
    let fused = Part { slot: Slot::FusedIn, block, names: stacked, swapped: false };
    assert(fused@.names =~= fused_names(layout, base@));
    let parts: Vec<Part> = vec![
        part_of(Slot::SingleModulation, block, base, names.modulation),
        fused,
        part_of(Slot::FusedOut, block, base, names.fused_out),
        part_of(Slot::SingleQueryNorm, block, base, names.query_norm),
        part_of(Slot::SingleKeyNorm, block, base, names.key_norm),
    ];
    assert(said(parts@) =~= single_parts(layout, base@, block as int));
    parts
}

// -- The model ---------------------------------------------------------------

/// What a part outside the blocks goes by.
pub open spec fn outer_name(layout: Layout, slot: Slot) -> Seq<char> {
    let reference = layout == Layout::Reference;
    let (first, second) = if reference {
        ("in_layer"@, "out_layer"@)
    } else {
        ("linear_1"@, "linear_2"@)
    };
    let time = if reference {
        "time_in"@
    } else {
        "time_text_embed.timestep_embedder"@
    };
    let vector = if reference {
        "vector_in"@
    } else {
        "time_text_embed.text_embedder"@
    };
    let guidance = if reference {
        "guidance_in"@
    } else {
        "time_text_embed.guidance_embedder"@
    };
    match slot {
        Slot::ImageIn => if reference {
            "img_in"@
        } else {
            "x_embedder"@
        },
        Slot::TextIn => if reference {
            "txt_in"@
        } else {
            "context_embedder"@
        },
        Slot::FinalModulation => if reference {
            "final_layer.adaLN_modulation.1"@
        } else {
            "norm_out.linear"@
        },
        Slot::FinalOut => if reference {
            "final_layer.linear"@
        } else {
            "proj_out"@
        },
        Slot::TimeInput => under(time, first),
        Slot::TimeOutput => under(time, second),
        Slot::VectorInput => under(vector, first),
        Slot::VectorOutput => under(vector, second),
        Slot::GuidanceInput => under(guidance, first),
        _ => under(guidance, second),
    }
}

/// A part outside the blocks.
pub open spec fn outer_part(layout: Layout, prefix: Seq<char>, slot: Slot) -> PartView {
    PartView {
        slot,
        block: 0,
        names: seq![prefix + outer_name(layout, slot)],
        swapped: slot == Slot::FinalModulation && layout == Layout::Diffusers,
    }
}

fn outer(layout: Layout, prefix: &str, slot: Slot, name: &str) -> (part: Part)
    requires
        name@ == outer_name(layout, slot),
    ensures
        part@ == outer_part(layout, prefix@, slot),
{
    let mut names: Vec<String> = Vec::new();
    let full = with_text(prefix, name, "");
    proof {
        reveal_strlit("");
        assert(full@ =~= prefix@ + name@);
    }
    names.push(full);
    let swapped: bool = match slot {
        Slot::FinalModulation => layout.final_scale_first(),
        _ => false,
    };
    let part = Part { slot, block: 0, names, swapped };
    assert(part@.names =~= seq![prefix@ + outer_name(layout, slot)]);
    part
}

/// The parts of the first `k` blocks of two streams.
pub open spec fn double_blocks(layout: Layout, prefix: Seq<char>, k: int) -> Seq<PartView>
    decreases k,
{
    if k <= 0 {
        Seq::empty()
    } else {
        double_blocks(layout, prefix, k - 1) + stream_parts(
            layout,
            base_of(layout, prefix, true, k - 1),
            true,
            k - 1,
        ) + stream_parts(layout, base_of(layout, prefix, true, k - 1), false, k - 1)
    }
}

/// The parts of the first `k` blocks of one stream.
pub open spec fn single_blocks(layout: Layout, prefix: Seq<char>, k: int) -> Seq<PartView>
    decreases k,
{
    if k <= 0 {
        Seq::empty()
    } else {
        single_blocks(layout, prefix, k - 1) + single_parts(
            layout,
            base_of(layout, prefix, false, k - 1),
            k - 1,
        )
    }
}

/// The slots outside the blocks.
pub open spec fn outer_slots(guidance: bool) -> Seq<Slot> {
    seq![
        Slot::ImageIn,
        Slot::FinalModulation,
        Slot::TextIn,
        Slot::TimeInput,
        Slot::TimeOutput,
        Slot::VectorInput,
        Slot::VectorOutput,
    ] + (if guidance {
        seq![Slot::GuidanceInput, Slot::GuidanceOutput]
    } else {
        Seq::empty()
    }) + seq![Slot::FinalOut]
}

/// The parts outside the blocks.
pub open spec fn outer_parts(layout: Layout, prefix: Seq<char>, guidance: bool) -> Seq<PartView> {
    outer_slots(guidance).map_values(|slot: Slot| outer_part(layout, prefix, slot))
}

/// Every part of a denoiser, in the order they are read.
pub open spec fn all_parts(layout: Layout, prefix: Seq<char>, config: DitConfig) -> Seq<PartView> {
    double_blocks(layout, prefix, config.double_blocks as int) + single_blocks(
        layout,
        prefix,
        config.single_blocks as int,
    ) + outer_parts(layout, prefix, config.guidance)
}

fn outside(layout: Layout, prefix: &str, guidance: bool) -> (parts: Vec<Part>)
    ensures
        said(parts@) == outer_parts(layout, prefix@, guidance),
{
    let (first, second) = (layout.embedder_in(), layout.embedder_out());
    let mut parts: Vec<Part> = vec![
        outer(layout, prefix, Slot::ImageIn, layout.image_in()),
        outer(layout, prefix, Slot::FinalModulation, layout.final_modulation()),
        outer(layout, prefix, Slot::TextIn, layout.text_in()),
        outer(layout, prefix, Slot::TimeInput, below(layout.time_in(), first).as_str()),
        outer(layout, prefix, Slot::TimeOutput, below(layout.time_in(), second).as_str()),
        outer(layout, prefix, Slot::VectorInput, below(layout.vector_in(), first).as_str()),
        outer(layout, prefix, Slot::VectorOutput, below(layout.vector_in(), second).as_str()),
    ];
    if guidance {
        parts.push(
            outer(layout, prefix, Slot::GuidanceInput, below(layout.guidance_in(), first).as_str()),
        );
        parts.push(
            outer(
                layout,
                prefix,
                Slot::GuidanceOutput,
                below(layout.guidance_in(), second).as_str(),
            ),
        );
    }
    parts.push(outer(layout, prefix, Slot::FinalOut, layout.final_out()));
    assert(said(parts@) =~= outer_parts(layout, prefix@, guidance));
    parts
}

fn join(parts: &mut Vec<Part>, next: Vec<Part>)
    ensures
        said(final(parts)@) == said(old(parts)@) + said(next@),
{
    let mut next = next;
    let ghost (before, more) = (parts@, next@);
    parts.append(&mut next);
    assert(said(before + more) =~= said(before) + said(more));
}

/// Every part of a denoiser, in the order they are read: the blocks of two
/// streams, image before text, the blocks of one stream, and what stands
/// around them. The tensors' names start with `prefix`.
pub fn read_at(layout: Layout, prefix: &str, config: &DitConfig) -> (parts: Vec<Part>)
    ensures
        said(parts@) == all_parts(layout, prefix@, *config),
{
    let mut parts: Vec<Part> = Vec::new();
    let mut index: usize = 0;
    assert(said(parts@) =~= double_blocks(layout, prefix@, 0));
    while index < config.double_blocks
        invariant
            index <= config.double_blocks,
            said(parts@) == double_blocks(layout, prefix@, index as int),
        decreases config.double_blocks - index,
    {
        let base = layout.block(prefix, true, index);
        join(&mut parts, read_stream(layout, base.as_str(), true, index));
        join(&mut parts, read_stream(layout, base.as_str(), false, index));
        index = index + 1;
        assert(base@ == base_of(layout, prefix@, true, index - 1));
    }
    let ghost double = said(parts@);
    let mut index: usize = 0;
    assert(double =~= double + single_blocks(layout, prefix@, 0));
    while index < config.single_blocks
        invariant
            index <= config.single_blocks,
            said(parts@) == double + single_blocks(layout, prefix@, index as int),
        decreases config.single_blocks - index,
    {
        let base = layout.block(prefix, false, index);
        join(&mut parts, read_single(layout, base.as_str(), index));
        index = index + 1;
        assert(base@ == base_of(layout, prefix@, false, index - 1));
        assert(said(parts@) =~= double + single_blocks(layout, prefix@, index as int));
    }
    join(&mut parts, outside(layout, prefix, config.guidance));
    parts
}

// -- A part from its tensors ---------------------------------------------------

/// A projection from its tensors: the weight, whose shape is its outputs and
/// its inputs, and perhaps a bias.
pub fn dense<T: Copy>(name: &str, values: Vec<T>, shape: &Vec<usize>, bias: Option<Vec<T>>) -> (layer:
    Result<Dense<T>, NetworkError>)
    requires
        shape@.len() == 2 ==> values@.len() == shape@[0] * shape@[1],
        shape@.len() == 2 && bias is Some ==> bias->Some_0@.len() == shape@[0],
    ensures
        match layer {
            Ok(layer) => {
                &&& shape@.len() == 2
                &&& layer.wf()
                &&& layer.weight.rows == shape@[0]
                &&& layer.weight.cols == shape@[1]
                &&& layer.weight.data == values
                &&& layer.bias == bias
            },
            Err(error) => shape@.len() != 2 && error@ == Fault::InvalidConfig(
                name@ + ".weight is "@ + (shown_list(shape@, shape@.len() as int) + "]"@)
                    + ", which is not a linear layer"@,
            ),
        },
{
    if shape.len() != 2 {
        let sizes = show_list(shape);
        let first = with_text(name, ".weight is ", sizes.as_str());
        let message = with_text(first.as_str(), ", which is not a linear layer", "");
        proof {
            reveal_strlit("");
            assert(message@ =~= name@ + ".weight is "@ + (shown_list(
                shape@,
                shape@.len() as int,
            ) + "]"@) + ", which is not a linear layer"@);
        }
        return Err(NetworkError::InvalidConfig(message));
    }
    Ok(Dense { weight: Matrix::from_vec(shape[0], shape[1], values), bias })
}

// -- Laws --------------------------------------------------------------------

/// What a list of parts is for.
pub open spec fn slots(parts: Seq<PartView>) -> Seq<(Slot, int)> {
    parts.map_values(|part: PartView| (part.slot, part.block))
}

proof fn lemma_slots_add(a: Seq<PartView>, b: Seq<PartView>)
    ensures
        slots(a + b) == slots(a) + slots(b),
{
    assert(slots(a + b) =~= slots(a) + slots(b));
}

proof fn lemma_stream_slots(p: Layout, q: Layout, a: Seq<char>, b: Seq<char>, image: bool, k: int)
    ensures
        slots(stream_parts(p, a, image, k)) == slots(stream_parts(q, b, image, k)),
{
    assert(slots(stream_parts(p, a, image, k)) =~= slots(stream_parts(q, b, image, k)));
}

proof fn lemma_double_slots(p: Layout, q: Layout, a: Seq<char>, b: Seq<char>, k: int)
    ensures
        slots(double_blocks(p, a, k)) == slots(double_blocks(q, b, k)),
    decreases k,
{
    if k > 0 {
        lemma_double_slots(p, q, a, b, k - 1);
        let (c, d) = (base_of(p, a, true, k - 1), base_of(q, b, true, k - 1));
        lemma_stream_slots(p, q, c, d, true, k - 1);
        lemma_stream_slots(p, q, c, d, false, k - 1);
        let (e, f) = (double_blocks(p, a, k - 1), double_blocks(q, b, k - 1));
        lemma_slots_add(e, stream_parts(p, c, true, k - 1));
        lemma_slots_add(f, stream_parts(q, d, true, k - 1));
        lemma_slots_add(
            e + stream_parts(p, c, true, k - 1),
            stream_parts(p, c, false, k - 1),
        );
        lemma_slots_add(
            f + stream_parts(q, d, true, k - 1),
            stream_parts(q, d, false, k - 1),
        );
    }
}

proof fn lemma_single_slots(p: Layout, q: Layout, a: Seq<char>, b: Seq<char>, k: int)
    ensures
        slots(single_blocks(p, a, k)) == slots(single_blocks(q, b, k)),
    decreases k,
{
    if k > 0 {
        lemma_single_slots(p, q, a, b, k - 1);
        let (c, d) = (base_of(p, a, false, k - 1), base_of(q, b, false, k - 1));
        assert(slots(single_parts(p, c, k - 1)) =~= slots(single_parts(q, d, k - 1)));
        lemma_slots_add(single_blocks(p, a, k - 1), single_parts(p, c, k - 1));
        lemma_slots_add(single_blocks(q, b, k - 1), single_parts(q, d, k - 1));
    }
}

/// The two spellings of a checkpoint fill the same model: whatever the
/// spelling and the prefix, the same parts are read in the same order.
pub proof fn law_spellings_fill_the_same_model(
    p: Layout,
    q: Layout,
    a: Seq<char>,
    b: Seq<char>,
    config: DitConfig,
)
    ensures
        slots(all_parts(p, a, config)) == slots(all_parts(q, b, config)),
{
    let (m, n) = (config.double_blocks as int, config.single_blocks as int);
    lemma_double_slots(p, q, a, b, m);
    lemma_single_slots(p, q, a, b, n);
    assert(slots(outer_parts(p, a, config.guidance)) =~= slots(
        outer_parts(q, b, config.guidance),
    ));
    lemma_slots_add(double_blocks(p, a, m), single_blocks(p, a, n));
    lemma_slots_add(double_blocks(q, b, m), single_blocks(q, b, n));
    lemma_slots_add(
        double_blocks(p, a, m) + single_blocks(p, a, n),
        outer_parts(p, a, config.guidance),
    );
    lemma_slots_add(
        double_blocks(q, b, m) + single_blocks(q, b, n),
        outer_parts(q, b, config.guidance),
    );
}

} // verus!
