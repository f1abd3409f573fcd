//! The names a checkpoint's tensors go by. The same weights are published
//! under two spellings; which one a file uses is read off the file.
use crate::text::{decimal, with_number, with_text};
use vstd::prelude::*;
use vstd::string::*;

verus! {

/// Which spelling of the same weights a checkpoint uses.
#[derive(Clone, Copy, Debug, PartialEq, Eq, Structural)]
pub enum Layout {
    /// The names the first checkpoints carry.
    Reference,
    /// The names they were repacked under.
    Diffusers,
}

/// Whether a text starts with another.
pub open spec fn starts_with(text: Seq<char>, start: Seq<char>) -> bool {
    start.len() <= text.len() && text.take(start.len() as int) == start
}

fn begins(text: &str, start: &str) -> (yes: bool)
    ensures
        yes == starts_with(text@, start@),
{
    let long: usize = text.unicode_len();
    let short: usize = start.unicode_len();
    if short > long {
        return false;
    }
    let mut i: usize = 0;
    while i < short
        invariant
            i <= short == start@.len(),
            short <= long == text@.len(),
            forall|k: int| 0 <= k < i ==> #[trigger] text@[k] == start@[k],
        decreases short - i,
    {
        if text.get_char(i) != start.get_char(i) {
            assert(text@.take(short as int)[i as int] != start@[i as int]);
            return false;
        }
        i = i + 1;
    }
    assert(text@.take(short as int) =~= start@);
    true
}

impl Layout {
    /// Reads the layout off the names of a file's tensors, by the name its
    /// blocks go by.
    pub fn detect(names: &Vec<String>, prefix: &str) -> (layout: Layout)
        ensures
            layout == if exists|i: int|
                0 <= i < names@.len() && starts_with(
                    #[trigger] names@[i]@,
                    prefix@ + "transformer_blocks."@ + ""@,
                ) {
                Layout::Diffusers
            } else {
                Layout::Reference
            },
    {
        let blocks = with_text(prefix, "transformer_blocks.", "");
        let mut i: usize = 0;
        while i < names.len()
            invariant
                i <= names@.len(),
                blocks@ == prefix@ + "transformer_blocks."@ + ""@,
                forall|k: int|
                    0 <= k < i ==> !starts_with(
                        #[trigger] names@[k]@,
                        prefix@ + "transformer_blocks."@ + ""@,
                    ),
            decreases names.len() - i,
        {
            if begins(names[i].as_str(), blocks.as_str()) {
                assert(starts_with(
                    names@[i as int]@,
                    prefix@ + "transformer_blocks."@ + ""@,
                ));
                return Layout::Diffusers;
            }
            i = i + 1;
        }
        Layout::Reference
    }

    /// What the blocks of two streams go by.
    pub fn double_blocks(self) -> (name: &'static str)
        ensures
            name@ == match self {
                Layout::Reference => "double_blocks"@,
                Layout::Diffusers => "transformer_blocks"@,
            },
    {
        match self {
            Layout::Reference => "double_blocks",
            Layout::Diffusers => "transformer_blocks",
        }
    }

    /// What the blocks of one stream go by.
    pub fn single_blocks(self) -> (name: &'static str)
        ensures
            name@ == match self {
                Layout::Reference => "single_blocks"@,
                Layout::Diffusers => "single_transformer_blocks"@,
            },
    {
        match self {
            Layout::Reference => "single_blocks",
            Layout::Diffusers => "single_transformer_blocks",
        }
    }

    /// The first layer of an embedder.
    pub fn embedder_in(self) -> (name: &'static str)
        ensures
            name@ == match self {
                Layout::Reference => "in_layer"@,
                Layout::Diffusers => "linear_1"@,
            },
    {
        match self {
            Layout::Reference => "in_layer",
            Layout::Diffusers => "linear_1",
        }
    }

    /// The second layer of an embedder.
    pub fn embedder_out(self) -> (name: &'static str)
        ensures
            name@ == match self {
                Layout::Reference => "out_layer"@,
                Layout::Diffusers => "linear_2"@,
            },
    {
        match self {
            Layout::Reference => "out_layer",
            Layout::Diffusers => "linear_2",
        }
    }

    /// The patch embedding.
    pub fn image_in(self) -> (name: &'static str)
        ensures
            name@ == match self {
                Layout::Reference => "img_in"@,
                Layout::Diffusers => "x_embedder"@,
            },
    {
        match self {
            Layout::Reference => "img_in",
            Layout::Diffusers => "x_embedder",
        }
    }

    /// The text embedding.
    pub fn text_in(self) -> (name: &'static str)
        ensures
            name@ == match self {
                Layout::Reference => "txt_in"@,
                Layout::Diffusers => "context_embedder"@,
            },
    {
        match self {
            Layout::Reference => "txt_in",
            Layout::Diffusers => "context_embedder",
        }
    }

    /// The timestep embedder.
    pub fn time_in(self) -> (name: &'static str)
        ensures
            name@ == match self {
                Layout::Reference => "time_in"@,
                Layout::Diffusers => "time_text_embed.timestep_embedder"@,
            },
    {
        match self {
            Layout::Reference => "time_in",
            Layout::Diffusers => "time_text_embed.timestep_embedder",
        }
    }

    /// The pooled-prompt embedder.
    pub fn vector_in(self) -> (name: &'static str)
        ensures
            name@ == match self {
                Layout::Reference => "vector_in"@,
                Layout::Diffusers => "time_text_embed.text_embedder"@,
            },
    {
        match self {
            Layout::Reference => "vector_in",
            Layout::Diffusers => "time_text_embed.text_embedder",
        }
    }

    /// The guidance embedder.
    pub fn guidance_in(self) -> (name: &'static str)
        ensures
            name@ == match self {
                Layout::Reference => "guidance_in"@,
                Layout::Diffusers => "time_text_embed.guidance_embedder"@,
            },
    {
        match self {
            Layout::Reference => "guidance_in",
            Layout::Diffusers => "time_text_embed.guidance_embedder",
        }
    }

    /// The final modulation.
    pub fn final_modulation(self) -> (name: &'static str)
        ensures
            name@ == match self {
                Layout::Reference => "final_layer.adaLN_modulation.1"@,
                Layout::Diffusers => "norm_out.linear"@,
            },
    {
        match self {
            Layout::Reference => "final_layer.adaLN_modulation.1",
            Layout::Diffusers => "norm_out.linear",
        }
    }

    /// The output projection.
    pub fn final_out(self) -> (name: &'static str)
        ensures
            name@ == match self {
                Layout::Reference => "final_layer.linear"@,
                Layout::Diffusers => "proj_out"@,
            },
    {
        match self {
            Layout::Reference => "final_layer.linear",
            Layout::Diffusers => "proj_out",
        }
    }

    /// Whether the final modulation emits the scale before the shift.
    pub fn final_scale_first(self) -> (first: bool)
        ensures
            first == (self == Layout::Diffusers),
    {
        match self {
            Layout::Reference => false,
            Layout::Diffusers => true,
        }
    }
}

/// The names of one side of a block of two streams, below the block's own.
/// Where the three projections are one tensor, only the first is named.
#[derive(Debug)]
pub struct StreamNames {
    pub modulation: &'static str,
    pub queries: &'static str,
    pub keys: Option<&'static str>,
    pub values: Option<&'static str>,
    pub query_norm: &'static str,
    pub key_norm: &'static str,
    pub projection: &'static str,
    pub mlp_in: &'static str,
    pub mlp_out: &'static str,
}

/// What the names of a stream are.
pub ghost struct StreamView {
    pub modulation: Seq<char>,
    pub queries: Seq<char>,
    pub keys: Option<Seq<char>>,
    pub values: Option<Seq<char>>,
    pub query_norm: Seq<char>,
    pub key_norm: Seq<char>,
    pub projection: Seq<char>,
    pub mlp_in: Seq<char>,
    pub mlp_out: Seq<char>,
}

/// What an optional name says.
pub open spec fn name_of(name: Option<&'static str>) -> Option<Seq<char>> {
    match name {
        Some(name) => Some(name@),
        None => None,
    }
}

impl View for StreamNames {
    type V = StreamView;

    open spec fn view(&self) -> StreamView {
        StreamView {
            modulation: self.modulation@,
            queries: self.queries@,
            keys: name_of(self.keys),
            values: name_of(self.values),
            query_norm: self.query_norm@,
            key_norm: self.key_norm@,
            projection: self.projection@,
            mlp_in: self.mlp_in@,
            mlp_out: self.mlp_out@,
        }
    }
}

/// The names of a stream.
pub open spec fn stream_of(layout: Layout, image: bool) -> StreamView {
    match (layout, image) {
        (Layout::Reference, true) => StreamView {
            modulation: "img_mod.lin"@,
            queries: "img_attn.qkv"@,
            keys: None,
            values: None,
            query_norm: "img_attn.norm.query_norm.scale"@,
            key_norm: "img_attn.norm.key_norm.scale"@,
            projection: "img_attn.proj"@,
            mlp_in: "img_mlp.0"@,
            mlp_out: "img_mlp.2"@,
        },
        (Layout::Reference, false) => StreamView {
            modulation: "txt_mod.lin"@,
            queries: "txt_attn.qkv"@,
            keys: None,
            values: None,
            query_norm: "txt_attn.norm.query_norm.scale"@,
            key_norm: "txt_attn.norm.key_norm.scale"@,
            projection: "txt_attn.proj"@,
            mlp_in: "txt_mlp.0"@,
            mlp_out: "txt_mlp.2"@,
        },
        (Layout::Diffusers, true) => StreamView {
            modulation: "norm1.linear"@,
            queries: "attn.to_q"@,
            keys: Some("attn.to_k"@),
            values: Some("attn.to_v"@),
            query_norm: "attn.norm_q.weight"@,
            key_norm: "attn.norm_k.weight"@,
            projection: "attn.to_out.0"@,
            mlp_in: "ff.net.0.proj"@,
            mlp_out: "ff.net.2"@,
        },
        (Layout::Diffusers, false) => StreamView {
            modulation: "norm1_context.linear"@,
            queries: "attn.add_q_proj"@,
            keys: Some("attn.add_k_proj"@),
            values: Some("attn.add_v_proj"@),
            query_norm: "attn.norm_added_q.weight"@,
            key_norm: "attn.norm_added_k.weight"@,
            projection: "attn.to_add_out"@,
            mlp_in: "ff_context.net.0.proj"@,
            mlp_out: "ff_context.net.2"@,
        },
    }
}

impl Layout {
    /// The names of the image's or the text's side of a block.
    pub fn stream(self, image: bool) -> (names: StreamNames)
        ensures
            names@ == stream_of(self, image),
    {
        match (self, image) {
            (Layout::Reference, true) => StreamNames {
                modulation: "img_mod.lin",
                queries: "img_attn.qkv",
                keys: None,
                values: None,
                query_norm: "img_attn.norm.query_norm.scale",
                key_norm: "img_attn.norm.key_norm.scale",
                projection: "img_attn.proj",
                mlp_in: "img_mlp.0",
                mlp_out: "img_mlp.2",
            },
            (Layout::Reference, false) => StreamNames {
                modulation: "txt_mod.lin",
                queries: "txt_attn.qkv",
                keys: None,
                values: None,
                query_norm: "txt_attn.norm.query_norm.scale",
                key_norm: "txt_attn.norm.key_norm.scale",
                projection: "txt_attn.proj",
                mlp_in: "txt_mlp.0",
                mlp_out: "txt_mlp.2",
            },
            (Layout::Diffusers, true) => StreamNames {
                modulation: "norm1.linear",
                queries: "attn.to_q",
                keys: Some("attn.to_k"),
                values: Some("attn.to_v"),
                query_norm: "attn.norm_q.weight",
                key_norm: "attn.norm_k.weight",
                projection: "attn.to_out.0",
                mlp_in: "ff.net.0.proj",
                mlp_out: "ff.net.2",
            },
            (Layout::Diffusers, false) => StreamNames {
                modulation: "norm1_context.linear",
                queries: "attn.add_q_proj",
                keys: Some("attn.add_k_proj"),
                values: Some("attn.add_v_proj"),
                query_norm: "attn.norm_added_q.weight",
                key_norm: "attn.norm_added_k.weight",
                projection: "attn.to_add_out",
                mlp_in: "ff_context.net.0.proj",
                mlp_out: "ff_context.net.2",
            },
        }
    }
}

/// The names of a block of one stream, below the block's own. The fused
/// projection is one tensor, or several that are stacked.
#[derive(Debug)]
pub struct SingleNames {
    pub modulation: &'static str,
    pub fused_in: Vec<&'static str>,
    pub fused_out: &'static str,
    pub query_norm: &'static str,
    pub key_norm: &'static str,
}

impl Layout {
    /// The names of a block of one stream.
    pub fn single(self) -> (names: SingleNames)
        ensures
            match self {
                Layout::Reference => {
                    &&& names.modulation@ == "modulation.lin"@
                    &&& names.fused_in@.len() == 1
                    &&& names.fused_in@[0]@ == "linear1"@
                    &&& names.fused_out@ == "linear2"@
                    &&& names.query_norm@ == "norm.query_norm.scale"@
                    &&& names.key_norm@ == "norm.key_norm.scale"@
                },
                Layout::Diffusers => {
                    &&& names.modulation@ == "norm.linear"@
                    &&& names.fused_in@.len() == 4
                    &&& names.fused_in@[0]@ == "attn.to_q"@
                    &&& names.fused_in@[1]@ == "attn.to_k"@
                    &&& names.fused_in@[2]@ == "attn.to_v"@
                    &&& names.fused_in@[3]@ == "proj_mlp"@
                    &&& names.fused_out@ == "proj_out"@
                    &&& names.query_norm@ == "attn.norm_q.weight"@
                    &&& names.key_norm@ == "attn.norm_k.weight"@
                },
            },
    {
        match self {
            Layout::Reference => SingleNames {
                modulation: "modulation.lin",
                fused_in: vec!["linear1"],
                fused_out: "linear2",
                query_norm: "norm.query_norm.scale",
                key_norm: "norm.key_norm.scale",
            },
            Layout::Diffusers => SingleNames {
                modulation: "norm.linear",
                fused_in: vec!["attn.to_q", "attn.to_k", "attn.to_v", "proj_mlp"],
                fused_out: "proj_out",
                query_norm: "attn.norm_q.weight",
                key_norm: "attn.norm_k.weight",
            },
        }
    }

    /// What the tensors of a block start with.
    pub fn block(self, prefix: &str, double: bool, index: usize) -> (base: String)
        ensures
            base@ == prefix@ + (match (self, double) {
                (Layout::Reference, true) => "double_blocks"@,
                (Layout::Reference, false) => "single_blocks"@,
                (Layout::Diffusers, true) => "transformer_blocks"@,
                (Layout::Diffusers, false) => "single_transformer_blocks"@,
            }) + "."@ + decimal(index as nat),
    {
        let kind = if double {
            self.double_blocks()
        } else {
            self.single_blocks()
        };
        let start = with_text(prefix, kind, ".");
        let base = with_number(start.as_str(), index as u64, "");
        proof {
            reveal_strlit("");
            assert(base@ =~= prefix@ + kind@ + "."@ + decimal(index as nat));
        }
        base
    }
}

/// A name below another.
pub fn below(base: &str, name: &str) -> (full: String)
    ensures
        full@ == base@ + "."@ + name@,
{
    with_text(base, ".", name)
}

} // verus!
