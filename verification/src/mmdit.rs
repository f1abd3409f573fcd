//! The shape of a denoising transformer: what its configuration says, and
//! where in the image each token sits.
//!
//! A denoiser reads two sequences, the prompt's tokens and the image's
//! patches. Positions are rotary, in two dimensions: each head's dimensions
//! are split between a patch's row and its column. Text tokens sit at the
//! origin, where the rotation is the identity.
use crate::error::{Fault, NetworkError};
use crate::json::{items, member, parsed, tree, Json, Tree};
use crate::moe::total;
use crate::text::{decimal, to_decimal, with_number, with_text, with_two_numbers};
use vstd::prelude::*;

verus! {

/// The shape of a denoiser, which a checkpoint's own configuration names.
/// Numbers that are not whole are kept as their decimal text.
#[derive(Debug)]
pub struct DitConfig {
    /// Channels per patch of the latent the sampler works on.
    pub in_channels: usize,
    pub out_channels: usize,
    pub d_model: usize,
    pub num_heads: usize,
    pub double_blocks: usize,
    pub single_blocks: usize,
    /// Feed-forward width as a multiple of `d_model`; four where there is
    /// none.
    pub mlp_ratio: Option<String>,
    /// Width of the text encoder's output.
    pub text_dim: usize,
    /// Width of the pooled prompt vector that joins the timestep.
    pub pooled_dim: usize,
    /// How each head's dimensions split across the position axes.
    pub axes_dim: Vec<usize>,
    /// The base of the rotation frequencies; ten thousand where there is none.
    pub theta: Option<String>,
    /// Whether the model takes a distilled guidance scale.
    pub guidance: bool,
    /// What keeps a norm from dividing by zero; a millionth where there is
    /// none.
    pub eps: Option<String>,
}

/// What a configuration says.
pub ghost struct ConfigView {
    pub in_channels: int,
    pub out_channels: int,
    pub d_model: int,
    pub num_heads: int,
    pub double_blocks: int,
    pub single_blocks: int,
    pub mlp_ratio: Option<Seq<char>>,
    pub text_dim: int,
    pub pooled_dim: int,
    pub axes_dim: Seq<usize>,
    pub theta: Option<Seq<char>>,
    pub guidance: bool,
    pub eps: Option<Seq<char>>,
}

/// What an optional text says.
pub open spec fn text_of(text: Option<String>) -> Option<Seq<char>> {
    match text {
        Some(text) => Some(text@),
        None => None,
    }
}

impl View for DitConfig {
    type V = ConfigView;

    open spec fn view(&self) -> ConfigView {
        ConfigView {
            in_channels: self.in_channels as int,
            out_channels: self.out_channels as int,
            d_model: self.d_model as int,
            num_heads: self.num_heads as int,
            double_blocks: self.double_blocks as int,
            single_blocks: self.single_blocks as int,
            mlp_ratio: text_of(self.mlp_ratio),
            text_dim: self.text_dim as int,
            pooled_dim: self.pooled_dim as int,
            axes_dim: self.axes_dim@,
            theta: text_of(self.theta),
            guidance: self.guidance,
            eps: text_of(self.eps),
        }
    }
}

/// The whole number under a key.
pub open spec fn whole(json: Tree, key: Seq<char>) -> Option<usize> {
    match json.get(key) {
        Tree::Unsigned(n) => Some(n as usize),
        _ => None,
    }
}

/// The whole number under a key, or a fallback.
pub open spec fn whole_or(json: Tree, key: Seq<char>, fallback: usize) -> usize {
    match whole(json, key) {
        Some(n) => n,
        None => fallback,
    }
}

/// Whether every item of a list is a whole number.
pub open spec fn all_whole(list: Seq<Tree>) -> bool {
    forall|i: int| 0 <= i < list.len() ==> #[trigger] list[i] is Unsigned
}

/// The axes a configuration names, or two for the image and nothing else.
pub open spec fn axes(json: Tree, head_dim: usize) -> Seq<usize> {
    match json.get("axes_dims_rope"@) {
        Tree::Array(list) => Seq::new(list.len(), |i: int| list[i]->Unsigned_0 as usize),
        _ => seq![head_dim / 2, (head_dim - head_dim / 2) as usize],
    }
}

/// The first entry that a configuration lacks.
pub open spec fn lacking(json: Tree) -> Option<Seq<char>> {
    if whole(json, "num_attention_heads"@) is None {
        Some("num_attention_heads"@)
    } else if whole(json, "attention_head_dim"@) is None {
        Some("attention_head_dim"@)
    } else if whole(json, "in_channels"@) is None {
        Some("in_channels"@)
    } else if json.get("axes_dims_rope"@) is Array && !all_whole(
        json.get("axes_dims_rope"@)->Array_0,
    ) {
        Some("a numeric axes_dims_rope"@)
    } else if whole(json, "num_layers"@) is None {
        Some("num_layers"@)
    } else if whole(json, "joint_attention_dim"@) is None {
        Some("joint_attention_dim"@)
    } else {
        None
    }
}

/// Whether the width, the product of two entries, can be counted.
pub open spec fn width_fits(json: Tree) -> bool {
    whole_or(json, "num_attention_heads"@, 0) * whole_or(json, "attention_head_dim"@, 0)
        <= usize::MAX
}

/// What a configuration file says, when it lacks nothing.
pub open spec fn config_of(json: Tree) -> ConfigView {
    let heads = whole_or(json, "num_attention_heads"@, 0);
    let head_dim = whole_or(json, "attention_head_dim"@, 0);
    let in_channels = whole_or(json, "in_channels"@, 0);
    ConfigView {
        in_channels: in_channels as int,
        out_channels: whole_or(json, "out_channels"@, in_channels) as int,
        d_model: head_dim * heads,
        num_heads: heads as int,
        double_blocks: whole_or(json, "num_layers"@, 0) as int,
        single_blocks: whole_or(json, "num_single_layers"@, 0) as int,
        mlp_ratio: json.get("mlp_ratio"@).number_text(),
        text_dim: whole_or(json, "joint_attention_dim"@, 0) as int,
        pooled_dim: whole_or(json, "pooled_projection_dim"@, 0) as int,
        axes_dim: axes(json, head_dim),
        theta: json.get("rope_theta"@).number_text(),
        guidance: json.get("guidance_embeds"@) == Tree::Bool(true),
        eps: None,
    }
}

fn missing(name: &str) -> (error: NetworkError)
    ensures
        error@ == Fault::InvalidDataset("transformer config.json has no "@ + name@ + ""@),
{
    NetworkError::InvalidDataset(with_text("transformer config.json has no ", name, ""))
}

fn whole_number(json: &Json, key: &str) -> (value: Option<usize>)
    ensures
        value == whole(tree(*json), key@),
{
    match json.get(key) {
        Some(value) => match value.as_u64() {
            Some(n) => Some(n as usize),
            None => None,
        },
        None => None,
    }
}

fn whole_number_or(json: &Json, key: &str, fallback: usize) -> (value: usize)
    ensures
        value == whole_or(tree(*json), key@, fallback),
{
    match whole_number(json, key) {
        Some(n) => n,
        None => fallback,
    }
}

fn number_text(json: &Json, key: &str) -> (text: Option<String>)
    ensures
        text_of(text) == tree(*json).get(key@).number_text(),
{
    match json.get(key) {
        Some(value) => value.as_number(),
        None => None,
    }
}

fn read_axes(json: &Json, head_dim: usize) -> (axes_dim: Result<Vec<usize>, NetworkError>)
    ensures
        match axes_dim {
            Ok(axes_dim) => {
                &&& tree(*json).get("axes_dims_rope"@) is Array ==> all_whole(
                    tree(*json).get("axes_dims_rope"@)->Array_0,
                )
                &&& axes_dim@ == axes(tree(*json), head_dim)
            },
            Err(error) => {
                &&& tree(*json).get("axes_dims_rope"@) is Array
                &&& !all_whole(tree(*json).get("axes_dims_rope"@)->Array_0)
                &&& error@ == Fault::InvalidDataset(
                    "transformer config.json has no "@ + "a numeric axes_dims_rope"@ + ""@,
                )
            },
        },
{
    let ghost wanted = axes(tree(*json), head_dim);
    match items(member(Some(json), "axes_dims_rope")) {
        Some(list) => {
            let ghost trees = tree(*json).get("axes_dims_rope"@)->Array_0;
            let mut axes_dim: Vec<usize> = Vec::new();
            let mut i: usize = 0;
            while i < list.len()
                invariant
                    i <= list@.len() == trees.len(),
                    tree(*json).get("axes_dims_rope"@) == Tree::Array(trees),
                    wanted == axes(tree(*json), head_dim),
                    forall|k: int| 0 <= k < list@.len() ==> trees[k] == tree(#[trigger] list@[k]),
                    forall|k: int| 0 <= k < i ==> #[trigger] trees[k] is Unsigned,
                    axes_dim@ == wanted.take(i as int),
                decreases list.len() - i,
            {
                assert(trees[i as int] == tree(list@[i as int]));
                match list[i].as_u64() {
                    Some(n) => axes_dim.push(n as usize),
                    None => {
                        assert(!(trees[i as int] is Unsigned));
                        return Err(missing("a numeric axes_dims_rope"));
                    },
                }
                i = i + 1;
                assert(axes_dim@ =~= wanted.take(i as int));
            }
            assert(axes_dim@ =~= wanted);
            Ok(axes_dim)
        },
        None => {
            let half: usize = head_dim / 2;
            let rest: usize = head_dim - half;
            let axes_dim: Vec<usize> = vec![half, rest];
            assert(axes_dim@ =~= wanted);
            Ok(axes_dim)
        },
    }
}

/// A list of numbers as it is shown: in square brackets, with commas.
pub open spec fn shown_list(list: Seq<usize>, k: int) -> Seq<char>
    decreases k,
{
    if k <= 0 {
        "["@
    } else if k == 1 {
        shown_list(list, 0) + decimal(list[0] as nat)
    } else {
        shown_list(list, k - 1) + ", "@ + decimal(list[k - 1] as nat)
    }
}

pub(crate) fn show_list(list: &Vec<usize>) -> (text: String)
    ensures
        text@ == shown_list(list@, list@.len() as int) + "]"@,
{
    let mut text = "[".to_string();
    let mut i: usize = 0;
    while i < list.len()
        invariant
            i <= list@.len(),
            text@ == shown_list(list@, i as int),
        decreases list.len() - i,
    {
        if i > 0 {
            text.append(", ");
        }
        let number = to_decimal(list[i] as u64);
        text.append(number.as_str());
        i = i + 1;
    }
    text.append("]");
    text
}

/// The complaint about the first entry that a configuration lacks.
fn missing_entry(json: &Json) -> (error: Option<NetworkError>)
    ensures
        match error {
            Some(error) => {
                &&& lacking(tree(*json)) is Some
                &&& error@ == Fault::InvalidDataset(
                    "transformer config.json has no "@ + lacking(tree(*json))->Some_0 + ""@,
                )
            },
            None => lacking(tree(*json)) is None,
        },
{
    if whole_number(json, "num_attention_heads").is_none() {
        return Some(missing("num_attention_heads"));
    }
    let head_dim: usize = match whole_number(json, "attention_head_dim") {
        Some(n) => n,
        None => return Some(missing("attention_head_dim")),
    };
    if whole_number(json, "in_channels").is_none() {
        return Some(missing("in_channels"));
    }
    if let Err(error) = read_axes(json, head_dim) {
        return Some(error);
    }
    if whole_number(json, "num_layers").is_none() {
        return Some(missing("num_layers"));
    }
    if whole_number(json, "joint_attention_dim").is_none() {
        return Some(missing("joint_attention_dim"));
    }
    None
}

/// Whether some axis has an odd number of dimensions.
pub open spec fn has_odd(list: Seq<usize>) -> bool {
    exists|i: int| 0 <= i < list.len() && #[trigger] list[i] % 2 != 0
}

impl DitConfig {
    /// The configuration of the model this layout was written from.
    pub fn published() -> (config: DitConfig)
        ensures
            config@ == (ConfigView {
                in_channels: 64,
                out_channels: 64,
                d_model: 3072,
                num_heads: 24,
                double_blocks: 19,
                single_blocks: 38,
                mlp_ratio: None,
                text_dim: 4096,
                pooled_dim: 768,
                axes_dim: seq![16usize, 56usize, 56usize],
                theta: None,
                guidance: true,
                eps: None,
            }),
    {
        let axes_dim: Vec<usize> = vec![16, 56, 56];
        assert(axes_dim@ =~= seq![16usize, 56usize, 56usize]);
        DitConfig {
            in_channels: 64,
            out_channels: 64,
            d_model: 3072,
            num_heads: 24,
            double_blocks: 19,
            single_blocks: 38,
            mlp_ratio: None,
            text_dim: 4096,
            pooled_dim: 768,
            axes_dim,
            theta: None,
            guidance: true,
            eps: None,
        }
    }

    /// Reads a configuration, which is how a published model states its own
    /// shape.
    pub fn from_json(json: &Json) -> (config: Result<DitConfig, NetworkError>)
        requires
            lacking(tree(*json)) is None ==> width_fits(tree(*json)),
        ensures
            match config {
                Ok(config) => lacking(tree(*json)) is None && config@ == config_of(tree(*json)),
                Err(error) => {
                    &&& lacking(tree(*json)) is Some
                    &&& error@ == Fault::InvalidDataset(
                        "transformer config.json has no "@ + lacking(tree(*json))->Some_0 + ""@,
                    )
                },
            },
    {
        if let Some(error) = missing_entry(json) {
            return Err(error);
        }
        let num_heads: usize = whole_number_or(json, "num_attention_heads", 0);
        let head_dim: usize = whole_number_or(json, "attention_head_dim", 0);
        let in_channels: usize = whole_number_or(json, "in_channels", 0);
        let axes_dim = match read_axes(json, head_dim) {
            Ok(axes_dim) => axes_dim,
            Err(error) => return Err(error),
        };
        let double_blocks: usize = whole_number_or(json, "num_layers", 0);
        let text_dim: usize = whole_number_or(json, "joint_attention_dim", 0);
        let guidance: bool = match json.get("guidance_embeds") {
            Some(value) => match value.as_bool() {
                Some(guidance) => guidance,
                None => false,
            },
            None => false,
        };
        proof {
            assert(num_heads * head_dim == head_dim * num_heads) by (nonlinear_arith);
        }
        Ok(
            DitConfig {
                in_channels,
                out_channels: whole_number_or(json, "out_channels", in_channels),
                d_model: head_dim * num_heads,
                num_heads,
                double_blocks,
                single_blocks: whole_number_or(json, "num_single_layers", 0),
                mlp_ratio: number_text(json, "mlp_ratio"),
                text_dim,
                pooled_dim: whole_number_or(json, "pooled_projection_dim", 0),
                axes_dim,
                theta: number_text(json, "rope_theta"),
                guidance,
                eps: None,
            },
        )
    }

    /// Reads the bytes of a configuration file. There is no answer for one
    /// whose width cannot be counted.
    pub fn from_bytes(bytes: &[u8]) -> (config: Option<Result<DitConfig, NetworkError>>)
        ensures
            match parsed(bytes@) {
                Ok(json) => match config {
                    Some(Ok(config)) => {
                        &&& width_fits(json)
                        &&& lacking(json) is None
                        &&& config@ == config_of(json)
                    },
                    Some(Err(error)) => {
                        &&& lacking(json) is Some
                        &&& error@ == Fault::InvalidDataset(
                            "transformer config.json has no "@ + lacking(json)->Some_0 + ""@,
                        )
                    },
                    None => lacking(json) is None && !width_fits(json),
                },
                Err(words) => {
                    &&& config is Some
                    &&& config->Some_0 is Err
                    &&& config->Some_0->Err_0@ == Fault::InvalidDataset(
                        "transformer config.json: "@ + words + ""@,
                    )
                },
            },
    {
        let json = match Json::parse_or_say(bytes) {
            Ok(json) => json,
            Err(reason) => {
                let message = with_text("transformer config.json: ", reason.as_str(), "");
                return Some(Err(NetworkError::InvalidDataset(message)));
            },
        };
        if let Some(error) = missing_entry(&json) {
            return Some(Err(error));
        }
        let heads: usize = whole_number_or(&json, "num_attention_heads", 0);
        let head_dim: usize = whole_number_or(&json, "attention_head_dim", 0);
        match heads.checked_mul(head_dim) {
            Some(_) => Some(DitConfig::from_json(&json)),
            None => None,
        }
    }

    /// Dimensions per attention head.
    pub fn head_dim(&self) -> (dim: usize)
        requires
            self.num_heads > 0,
        ensures
            dim == self.d_model / self.num_heads,
    {
        self.d_model / self.num_heads
    }

    /// Why no denoiser of this shape can be built, when none can.
    pub open spec fn objection(&self) -> Option<Fault> {
        if self.num_heads == 0 || self.d_model % self.num_heads != 0 {
            Some(
                Fault::InvalidConfig(
                    ""@ + decimal(self.num_heads as nat) + " heads do not divide "@ + decimal(
                        self.d_model as nat,
                    ) + " model dimensions"@,
                ),
            )
        } else if has_odd(self.axes_dim@) || total(self.axes_dim@, self.axes_dim@.len() as int)
            != self.d_model / self.num_heads {
            Some(
                Fault::InvalidConfig(
                    "the position axes "@ + (shown_list(self.axes_dim@, self.axes_dim@.len() as int)
                        + "]"@) + " must be even and sum to the head's "@ + decimal(
                        (self.d_model / self.num_heads) as nat,
                    ) + " dimensions"@,
                ),
            )
        } else {
            None
        }
    }

    /// Refuses a shape no denoiser can have.
    pub fn check(&self) -> (checked: Result<(), NetworkError>)
        requires
            total(self.axes_dim@, self.axes_dim@.len() as int) <= usize::MAX,
        ensures
            match checked {
                Ok(()) => self.objection() is None,
                Err(error) => self.objection() == Some(error@),
            },
    {
        if self.num_heads == 0 || self.d_model % self.num_heads != 0 {
            return Err(
                NetworkError::InvalidConfig(
                    with_two_numbers(
                        "",
                        self.num_heads as u64,
                        " heads do not divide ",
                        self.d_model as u64,
                        " model dimensions",
                    ),
                ),
            );
        }
        let mut odd: bool = false;
        let mut sum: usize = 0;
        let mut i: usize = 0;
        while i < self.axes_dim.len()
            invariant
                i <= self.axes_dim@.len(),
                total(self.axes_dim@, self.axes_dim@.len() as int) <= usize::MAX,
                sum == total(self.axes_dim@, i as int),
                odd <==> exists|k: int| 0 <= k < i && #[trigger] self.axes_dim@[k] % 2 != 0,
            decreases self.axes_dim.len() - i,
        {
            proof {
                lemma_total_grows(self.axes_dim@, i + 1, self.axes_dim@.len() as int);
            }
            if self.axes_dim[i] % 2 != 0 {
                odd = true;
            }
            sum = sum + self.axes_dim[i];
            i = i + 1;
        }
        if odd || sum != self.head_dim() {
            let list = show_list(&self.axes_dim);
            let first = with_text(
                "the position axes ",
                list.as_str(),
                " must be even and sum to the head's ",
            );
            let second = with_number("", self.head_dim() as u64, " dimensions");
            let message = with_text(first.as_str(), second.as_str(), "");
            proof {
                reveal_strlit("");
                assert(message@ =~= "the position axes "@ + (shown_list(
                    self.axes_dim@,
                    self.axes_dim@.len() as int,
                ) + "]"@) + " must be even and sum to the head's "@ + decimal(
                    (self.d_model / self.num_heads) as nat,
                ) + " dimensions"@);
            }
            return Err(NetworkError::InvalidConfig(message));
        }
        Ok(())
    }

    /// Refuses a checkpoint whose patch embedding is not of this shape.
    pub fn check_patches(&self, in_dim: usize, out_dim: usize) -> (checked: Result<
        (),
        NetworkError,
    >)
        ensures
            match checked {
                Ok(()) => in_dim == self.in_channels && out_dim == self.d_model,
                Err(error) => {
                    &&& in_dim != self.in_channels || out_dim != self.d_model
                    &&& error@ == Fault::InvalidConfig(
                        "the checkpoint's patch embedding maps "@ + decimal(in_dim as nat)
                            + " channels to "@ + decimal(out_dim as nat)
                            + ", and the configuration says "@ + decimal(self.in_channels as nat)
                            + " to "@ + decimal(self.d_model as nat) + ""@,
                    )
                },
            },
    {
        if in_dim != self.in_channels || out_dim != self.d_model {
            let first = with_two_numbers(
                "the checkpoint's patch embedding maps ",
                in_dim as u64,
                " channels to ",
                out_dim as u64,
                ", and the configuration says ",
            );
            let second = with_two_numbers(
                "",
                self.in_channels as u64,
                " to ",
                self.d_model as u64,
                "",
            );
            let message = with_text(first.as_str(), second.as_str(), "");
            proof {
                reveal_strlit("");
                assert(message@ =~= "the checkpoint's patch embedding maps "@ + decimal(
                    in_dim as nat,
                ) + " channels to "@ + decimal(out_dim as nat) + ", and the configuration says "@
                    + decimal(self.in_channels as nat) + " to "@ + decimal(self.d_model as nat)
                    + ""@);
            }
            return Err(NetworkError::InvalidConfig(message));
        }
        Ok(())
    }
}

proof fn lemma_total_grows(list: Seq<usize>, k: int, m: int)
    requires
        k <= m,
    ensures
        total(list, k) <= total(list, m),
    decreases m - k,
{
    if k < m {
        lemma_total_grows(list, k, m - 1);
    }
}

} // verus!
