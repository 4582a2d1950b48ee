//! The input projection of the saccade model: its sizes, its parameter count, and its layouts.

use crate::binary32::{bit_length, lemma_bit_length_bounds};
use crate::frames::{build_frames, lemma_frames_equal, volume, within, FrameBatch};
use crate::numeric::{sat_add, sat_mul, saturated, square_side};
use crate::rollout::{at_least_one, max_one};
use vstd::arithmetic::div_mod::{lemma_fundamental_div_mod, lemma_fundamental_div_mod_converse};
use vstd::arithmetic::power2::{lemma2_to64_rest, lemma_pow2_strictly_increases, pow2};
use vstd::prelude::*;

verus! {

/// Whether `grid` is the grid of `tokens` tokens: a square where they form one, else a single row.
pub open spec fn is_token_grid(tokens: int, grid: (usize, usize)) -> bool {
    let n = at_least_one(tokens);
    ||| grid.0 == grid.1 && grid.0 * grid.0 == n
    ||| grid.0 == 1 && grid.1 == n && forall|s: nat| #[trigger] (s * s) != n
}

/// The grid that `tokens` tokens are laid out on.
pub fn token_grid(tokens: usize) -> (grid: (usize, usize))
    ensures
        is_token_grid(tokens as int, grid),
        grid.0 * grid.1 == at_least_one(tokens as int),
{
    let n: usize = max_one(tokens);
    match square_side(n) {
        Some(side) => (side, side),
        None => (1, n),
    }
}

/// The scale of a patch size: how many sixteens it holds, at least one.
pub open spec fn patch_scale(patch_size: int) -> int {
    at_least_one(patch_size / 16)
}

/// The binary logarithm of a positive number, rounded down.
pub open spec fn floor_log2(n: int) -> int {
    bit_length(n as nat) - 1
}

fn log2(n: usize) -> (e: usize)
    requires
        n >= 1,
    ensures
        e == floor_log2(n as int),
        e <= 63,
{
    let mut m: usize = n;
    let mut e: usize = 0;
    proof {
        lemma_bit_length_bounds(n as nat);
        lemma2_to64_rest();
        if bit_length(n as nat) > 64 {
            if bit_length(n as nat) > 65 {
                lemma_pow2_strictly_increases(64, (bit_length(n as nat) - 1) as nat);
            }
        }
        assert(bit_length(1) == 1) by {
            reveal_with_fuel(bit_length, 2);
        }
    }
    while m > 1
        invariant
            m >= 1,
            bit_length(n as nat) == e + bit_length(m as nat),
            bit_length(n as nat) <= 64,
            bit_length(1) == 1,
        decreases m,
    {
        assert(bit_length((m / 2) as nat) >= 1);
        m = m / 2;
        e += 1;
    }
    e
}

/// The binary logarithm lies between the powers of two around the number.
pub proof fn law_floor_log2_brackets(n: int)
    requires
        n >= 1,
    ensures
        pow2(floor_log2(n) as nat) <= n < pow2((floor_log2(n) + 1) as nat),
{
    lemma_bit_length_bounds(n as nat);
}

fn scale_of(patch_size: usize) -> (scale: usize)
    ensures
        scale == patch_scale(patch_size as int),
        scale >= 1,
{
    max_one(patch_size / 16)
}

/// How many blocks the convolutional projection has: the configured number, or one more than the
/// logarithm of the patch scale.
pub fn resolve_cnn_blocks(patch_size: usize, blocks: usize) -> (r: usize)
    ensures
        blocks > 0 ==> r == blocks,
        blocks == 0 ==> r == 1 + floor_log2(patch_scale(patch_size as int)),
        r >= 1,
{
    if blocks > 0 {
        return blocks;
    }
    1 + log2(scale_of(patch_size))
}

/// The kernel of the convolutional projection: the configured one, or three grown by two for every
/// doubling of the patch scale, up to seven.
pub open spec fn cnn_kernel(patch_size: int, kernel: int) -> int {
    if kernel > 0 {
        kernel
    } else {
        vstd::math::min(3 + 2 * floor_log2(patch_scale(patch_size)), 7)
    }
}

/// The kernel of the convolutional projection.
pub fn resolve_cnn_kernel(patch_size: usize, kernel: usize) -> (r: usize)
    ensures
        r == cnn_kernel(patch_size as int, kernel as int),
{
    if kernel > 0 {
        return kernel;
    }
    let extra: usize = log2(scale_of(patch_size));
    let value: usize = 3 + 2 * extra;
    if value > 7 {
        7
    } else {
        value
    }
}

/// How many layers the micro transformer has.
pub fn resolve_micro_vit_layers(patch_size: usize, layers: usize) -> (r: usize)
    ensures
        layers > 0 ==> r == layers,
        layers == 0 ==> r == 1 + floor_log2(patch_scale(patch_size as int)),
        r >= 1,
{
    if layers > 0 {
        return layers;
    }
    1 + log2(scale_of(patch_size))
}

/// How many heads are wanted before they are fitted to the width.
pub open spec fn wanted_heads(embed_dim: int, patch_size: int, heads: int) -> int {
    let wanted = if heads > 0 {
        heads
    } else {
        vstd::math::min(2 * patch_scale(patch_size), 8)
    };
    vstd::math::min(at_least_one(wanted), at_least_one(embed_dim))
}

/// How many heads the micro transformer has: the largest number, not above the wanted one, that
/// divides the width.
pub fn resolve_micro_vit_heads(embed_dim: usize, patch_size: usize, heads: usize) -> (r: usize)
    ensures
        1 <= r <= wanted_heads(embed_dim as int, patch_size as int, heads as int),
        embed_dim as int % r as int == 0,
        forall|k: int|
            r < k <= wanted_heads(embed_dim as int, patch_size as int, heads as int)
                ==> #[trigger] (embed_dim as int % k) != 0,
{
    let wanted: usize = if heads > 0 {
        heads
    } else {
        let scale: usize = scale_of(patch_size);
        if scale >= 4 {
            8
        } else {
            2 * scale
        }
    };
    let width: usize = max_one(embed_dim);
    let mut r: usize = max_one(wanted);
    if r > width {
        r = width;
    }
    let ghost limit = r as int;
    while r > 1 && embed_dim % r != 0
        invariant
            1 <= r <= limit,
            limit == wanted_heads(embed_dim as int, patch_size as int, heads as int),
            forall|k: int| r < k <= limit ==> #[trigger] (embed_dim as int % k) != 0,
        decreases r,
    {
        r -= 1;
    }
    assert(embed_dim as int % 1 == 0);
    r
}

/// The hidden width of the radial embedding.
pub fn resolve_radial_hidden_dim(embed_dim: usize, hidden_dim: usize) -> (r: usize)
    ensures
        r == (if hidden_dim > 0 {
            hidden_dim as int
        } else {
            vstd::math::max(embed_dim as int / 2, 8)
        }),
{
    if hidden_dim > 0 {
        hidden_dim
    } else if embed_dim / 2 < 8 {
        8
    } else {
        embed_dim / 2
    }
}

/// The parameters of a linear layer: its weights and its bias.
pub open spec fn linear_count(in_dim: int, out_dim: int) -> int {
    in_dim * out_dim + out_dim
}

/// The parameters of a linear layer, saturating.
pub fn linear_params(in_dim: usize, out_dim: usize) -> (n: usize)
    ensures
        n == saturated(linear_count(in_dim as int, out_dim as int)),
{
    assert(in_dim * out_dim >= 0) by (nonlinear_arith);
    sat_add(sat_mul(in_dim, out_dim), out_dim)
}

/// The parameters of a layer norm: a scale and a shift per channel.
pub fn layer_norm_params(dim: usize) -> (n: usize)
    ensures
        n == saturated(dim * 2),
{
    sat_mul(dim, 2)
}

/// The parameters of a grouped convolution.
pub open spec fn conv_count(in_ch: int, out_ch: int, kernel: int, groups: int) -> int {
    out_ch * (in_ch / at_least_one(groups)) * (kernel * kernel) + out_ch
}

proof fn lemma_saturated_product(a: int, b: int)
    requires
        a >= 0,
        b >= 0,
    ensures
        a * b >= 0,
        saturated(saturated(a) * b) == saturated(a * b),
        saturated(a * saturated(b)) == saturated(a * b),
{
    assert(a * b >= 0) by (nonlinear_arith)
        requires
            a >= 0,
            b >= 0,
    ;
    if a > usize::MAX {
        if b == 0 {
            assert(a * b == 0 && saturated(a) * b == 0) by (nonlinear_arith)
                requires
                    b == 0,
            ;
        } else {
            assert(a * b > usize::MAX && saturated(a) * b >= usize::MAX) by (nonlinear_arith)
                requires
                    a > usize::MAX,
                    b >= 1,
                    saturated(a) == usize::MAX,
            ;
        }
    }
    if b > usize::MAX {
        if a == 0 {
            assert(a * b == 0 && a * saturated(b) == 0) by (nonlinear_arith)
                requires
                    a == 0,
            ;
        } else {
            assert(a * b > usize::MAX && a * saturated(b) >= usize::MAX) by (nonlinear_arith)
                requires
                    b > usize::MAX,
                    a >= 1,
                    saturated(b) == usize::MAX,
            ;
        }
    }
}

/// The parameters of a grouped convolution, saturating.
pub fn conv_params(in_ch: usize, out_ch: usize, kernel: usize, groups: usize) -> (n: usize)
    ensures
        n == saturated(
            conv_count(in_ch as int, out_ch as int, kernel as int, groups as int),
        ),
{
    let groups_or_one: usize = max_one(groups);
    let per_group: usize = in_ch / groups_or_one;
    proof {
        let a = out_ch * per_group;
        let k = kernel * kernel;
        assert(a >= 0 && k >= 0) by (nonlinear_arith)
            requires
                a == out_ch * per_group,
                k == kernel * kernel,
        ;
        lemma_saturated_product(a, k);
        lemma_saturated_product(saturated(a), k);
    }
    sat_add(sat_mul(sat_mul(out_ch, per_group), sat_mul(kernel, kernel)), out_ch)
}

/// The parameters of one block of the convolutional projection: a depthwise convolution and two
/// pointwise ones around the expansion. Each part saturates by itself.
pub open spec fn cnn_block_count(channels: int, kernel: int, expansion: int) -> int {
    let expanded = saturated(channels * expansion);
    saturated(conv_count(channels, channels, kernel, channels)) + saturated(
        conv_count(channels, expanded, 1, 1),
    ) + saturated(conv_count(expanded, channels, 1, 1))
}

/// The parameters of one block of the convolutional projection.
pub fn cnn_block_params(channels: usize, kernel: usize, expansion: usize) -> (n: usize)
    requires
        cnn_block_count(channels as int, kernel as int, expansion as int) <= usize::MAX,
    ensures
        n == cnn_block_count(channels as int, kernel as int, expansion as int),
{
    proof {
        lemma_conv_count_nonnegative(channels as int, channels as int, kernel as int, channels as int);
        let e = saturated(channels * expansion);
        assert(channels * expansion >= 0) by (nonlinear_arith);
        lemma_conv_count_nonnegative(channels as int, e, 1, 1);
        lemma_conv_count_nonnegative(e, channels as int, 1, 1);
    }
    let depthwise: usize = conv_params(channels, channels, kernel, channels);
    let expanded: usize = sat_mul(channels, expansion);
    let point_in: usize = conv_params(channels, expanded, 1, 1);
    let point_out: usize = conv_params(expanded, channels, 1, 1);
    depthwise + point_in + point_out
}

proof fn lemma_conv_count_nonnegative(in_ch: int, out_ch: int, kernel: int, groups: int)
    requires
        in_ch >= 0,
        out_ch >= 0,
        kernel >= 0,
    ensures
        conv_count(in_ch, out_ch, kernel, groups) >= 0,
{
    let g = at_least_one(groups);
    let p = in_ch / g;
    assert(p >= 0) by (nonlinear_arith)
        requires
            p == in_ch / g,
            in_ch >= 0,
            g >= 1,
    ;
    let a = out_ch * p;
    assert(a >= 0) by (nonlinear_arith)
        requires
            a == out_ch * p,
            out_ch >= 0,
            p >= 0,
    ;
    assert(a * (kernel * kernel) >= 0) by (nonlinear_arith)
        requires
            a >= 0,
            kernel >= 0,
    ;
}

/// The parameters of one micro transformer block: two norms, the attention and the feed-forward
/// part. Each part saturates by itself.
pub open spec fn micro_vit_block_count(embed_dim: int, mlp_ratio: int) -> int {
    let mlp_dim = at_least_one(saturated(embed_dim * mlp_ratio));
    saturated(embed_dim * 2) * 2 + saturated(linear_count(embed_dim, embed_dim * 3)) + saturated(
        linear_count(embed_dim, embed_dim),
    ) + (saturated(linear_count(embed_dim, mlp_dim)) + saturated(
        linear_count(mlp_dim, embed_dim),
    ))
}

proof fn lemma_linear_count_nonnegative(a: int, b: int)
    requires
        a >= 0,
        b >= 0,
    ensures
        linear_count(a, b) >= 0,
{
    assert(a * b >= 0) by (nonlinear_arith)
        requires
            a >= 0,
            b >= 0,
    ;
}

/// The parameters of one micro transformer block.
pub fn micro_vit_block_params(embed_dim: usize, mlp_ratio: usize) -> (n: usize)
    requires
        embed_dim * 3 <= usize::MAX,
        micro_vit_block_count(embed_dim as int, mlp_ratio as int) <= usize::MAX,
    ensures
        n == micro_vit_block_count(embed_dim as int, mlp_ratio as int),
{
    let mlp_dim: usize = max_one(sat_mul(embed_dim, mlp_ratio));
    proof {
        let e = embed_dim as int;
        lemma_linear_count_nonnegative(e, e * 3);
        lemma_linear_count_nonnegative(e, e);
        lemma_linear_count_nonnegative(e, mlp_dim as int);
        lemma_linear_count_nonnegative(mlp_dim as int, e);
    }
    let ln: usize = layer_norm_params(embed_dim) * 2;
    let qkv: usize = linear_params(embed_dim, embed_dim * 3);
    let proj: usize = linear_params(embed_dim, embed_dim);
    let mlp: usize = linear_params(embed_dim, mlp_dim) + linear_params(mlp_dim, embed_dim);
    ln + qkv + proj + mlp
}

/// The parameters of the radial embedding.
pub open spec fn radial_count(embed_dim: int, hidden_dim: int) -> int {
    saturated(linear_count(1, hidden_dim)) + saturated(linear_count(hidden_dim, embed_dim))
}

/// The parameters of the radial embedding.
pub fn radial_params(embed_dim: usize, hidden_dim: usize) -> (n: usize)
    requires
        radial_count(embed_dim as int, hidden_dim as int) <= usize::MAX,
    ensures
        n == radial_count(embed_dim as int, hidden_dim as int),
{
    proof {
        lemma_linear_count_nonnegative(1, hidden_dim as int);
        lemma_linear_count_nonnegative(hidden_dim as int, embed_dim as int);
    }
    linear_params(1, hidden_dim) + linear_params(hidden_dim, embed_dim)
}

/// The convolutional projection.
#[derive(Clone, Copy, Debug, PartialEq, Eq, Structural)]
pub struct VisionSaccadeInputProjectionCnnConfig {
    pub channels: Option<usize>,
    pub kernel: usize,
    pub expansion: usize,
    pub blocks: usize,
}

/// The micro transformer projection.
#[derive(Clone, Copy, Debug, PartialEq, Eq, Structural)]
pub struct VisionSaccadeInputProjectionMicroVitConfig {
    pub layers: usize,
    pub heads: usize,
    pub mlp_ratio: usize,
    pub radial_hidden_dim: usize,
}

/// Which projection the saccade model has.
#[derive(Clone, Copy, Debug, PartialEq, Eq, Structural)]
pub enum VisionSaccadeInputProjectionConfig {
    Linear,
    Cnn(VisionSaccadeInputProjectionCnnConfig),
    RadialMicroVit(VisionSaccadeInputProjectionMicroVitConfig),
}

/// The sizes of a convolutional projection.
#[derive(Clone, Copy, Debug, PartialEq, Eq, Structural)]
pub struct CnnProjectionPlan {
    pub channels: usize,
    pub kernel: usize,
    pub expansion: usize,
    pub blocks: usize,
    pub param_count: usize,
}

/// The channels of the convolutional projection: the configured ones, else the width.
pub open spec fn cnn_channels(embed_dim: int, channels: Option<usize>) -> int {
    match channels {
        Some(c) => if c > 0 {
            c as int
        } else {
            at_least_one(embed_dim)
        },
        None => at_least_one(embed_dim),
    }
}

/// The parameters of the convolutional projection outside its blocks.
pub open spec fn cnn_frame_count(embed_dim: int, channels: int) -> int {
    saturated(embed_dim * 2) + saturated(linear_count(embed_dim, channels)) + saturated(
        linear_count(channels, embed_dim),
    )
}

/// Whether the parameters of the convolutional projection can be counted.
pub open spec fn cnn_fits(
    embed_dim: usize,
    patch_size: usize,
    config: VisionSaccadeInputProjectionCnnConfig,
) -> bool {
    &&& cnn_frame_count(embed_dim as int, cnn_channels(embed_dim as int, config.channels))
        <= usize::MAX
    &&& cnn_block_count(
        cnn_channels(embed_dim as int, config.channels),
        cnn_kernel(patch_size as int, config.kernel as int),
        at_least_one(config.expansion as int),
    ) <= usize::MAX
}

/// Whether `plan` holds the sizes of the convolutional projection: what is configured, and for
/// what is left open the width, the kernel and the depth that the patch size calls for.
pub open spec fn is_cnn_plan(
    embed_dim: usize,
    patch_size: usize,
    config: VisionSaccadeInputProjectionCnnConfig,
    plan: CnnProjectionPlan,
) -> bool {
    &&& plan.channels == cnn_channels(embed_dim as int, config.channels)
    &&& plan.expansion == at_least_one(config.expansion as int)
    &&& plan.kernel == cnn_kernel(patch_size as int, config.kernel as int)
    &&& config.blocks > 0 ==> plan.blocks == config.blocks
    &&& config.blocks == 0 ==> plan.blocks == 1 + floor_log2(patch_scale(patch_size as int))
    &&& plan.param_count == saturated(
        cnn_frame_count(embed_dim as int, plan.channels as int) + cnn_block_count(
            plan.channels as int,
            plan.kernel as int,
            plan.expansion as int,
        ) * plan.blocks,
    )
}

/// The sizes of the convolutional projection.
pub fn plan_cnn_projection(
    embed_dim: usize,
    patch_size: usize,
    config: &VisionSaccadeInputProjectionCnnConfig,
) -> (plan: CnnProjectionPlan)
    requires
        cnn_fits(embed_dim, patch_size, *config),
    ensures
        is_cnn_plan(embed_dim, patch_size, *config, plan),
{
    let channels: usize = match config.channels {
        Some(c) => if c > 0 {
            c
        } else {
            max_one(embed_dim)
        },
        None => max_one(embed_dim),
    };
    let kernel: usize = resolve_cnn_kernel(patch_size, config.kernel);
    let expansion: usize = max_one(config.expansion);
    let blocks: usize = resolve_cnn_blocks(patch_size, config.blocks);
    proof {
        lemma_linear_count_nonnegative(embed_dim as int, channels as int);
        lemma_linear_count_nonnegative(channels as int, embed_dim as int);
        lemma_cnn_block_count_nonnegative(channels as int, kernel as int, expansion as int);
    }
    let frame: usize = layer_norm_params(embed_dim) + linear_params(embed_dim, channels)
        + linear_params(channels, embed_dim);
    let block: usize = cnn_block_params(channels, kernel, expansion);
    assert(block * blocks >= 0) by (nonlinear_arith);
    let param_count: usize = sat_add(frame, sat_mul(block, blocks));
    CnnProjectionPlan { channels, kernel, expansion, blocks, param_count }
}

proof fn lemma_cnn_block_count_nonnegative(channels: int, kernel: int, expansion: int)
    requires
        channels >= 0,
        kernel >= 0,
        expansion >= 0,
    ensures
        cnn_block_count(channels, kernel, expansion) >= 0,
{
    assert(channels * expansion >= 0) by (nonlinear_arith)
        requires
            channels >= 0,
            expansion >= 0,
    ;
    let e = saturated(channels * expansion);
    lemma_conv_count_nonnegative(channels, channels, kernel, channels);
    lemma_conv_count_nonnegative(channels, e, 1, 1);
    lemma_conv_count_nonnegative(e, channels, 1, 1);
}

/// The sizes of a micro transformer projection.
#[derive(Clone, Copy, Debug, PartialEq, Eq, Structural)]
pub struct MicroVitProjectionPlan {
    pub layers: usize,
    pub heads: usize,
    pub head_dim: usize,
    pub mlp_ratio: usize,
    pub mlp_dim: usize,
    pub radial_hidden_dim: usize,
    pub param_count: usize,
}

/// The hidden width of the radial embedding.
pub open spec fn radial_hidden(embed_dim: int, hidden_dim: int) -> int {
    if hidden_dim > 0 {
        hidden_dim
    } else {
        vstd::math::max(embed_dim / 2, 8)
    }
}

/// Whether the parameters of the micro transformer projection can be counted.
pub open spec fn micro_vit_fits(
    embed_dim: usize,
    config: VisionSaccadeInputProjectionMicroVitConfig,
) -> bool {
    &&& embed_dim * 3 <= usize::MAX
    &&& radial_count(
        embed_dim as int,
        radial_hidden(embed_dim as int, config.radial_hidden_dim as int),
    ) <= usize::MAX
    &&& micro_vit_block_count(embed_dim as int, at_least_one(config.mlp_ratio as int))
        <= usize::MAX
}

/// Whether `plan` holds the sizes of the micro transformer projection. The heads are the largest
/// number, up to the wanted one, that divides the width.
pub open spec fn is_micro_vit_plan(
    embed_dim: usize,
    patch_size: usize,
    config: VisionSaccadeInputProjectionMicroVitConfig,
    plan: MicroVitProjectionPlan,
) -> bool {
    let wanted = wanted_heads(embed_dim as int, patch_size as int, config.heads as int);
    &&& config.layers > 0 ==> plan.layers == config.layers
    &&& config.layers == 0 ==> plan.layers == 1 + floor_log2(patch_scale(patch_size as int))
    &&& 1 <= plan.heads <= wanted
    &&& embed_dim as int % plan.heads as int == 0
    &&& forall|k: int| plan.heads < k <= wanted ==> #[trigger] (embed_dim as int % k) != 0
    &&& plan.head_dim == at_least_one(embed_dim as int / plan.heads as int)
    &&& plan.mlp_ratio == at_least_one(config.mlp_ratio as int)
    &&& plan.mlp_dim == at_least_one(saturated(embed_dim * plan.mlp_ratio))
    &&& plan.radial_hidden_dim == radial_hidden(embed_dim as int, config.radial_hidden_dim as int)
    &&& plan.param_count == saturated(
        radial_count(embed_dim as int, plan.radial_hidden_dim as int) + micro_vit_block_count(
            embed_dim as int,
            plan.mlp_ratio as int,
        ) * plan.layers,
    )
}

/// The sizes of the micro transformer projection.
pub fn plan_micro_vit_projection(
    embed_dim: usize,
    patch_size: usize,
    config: &VisionSaccadeInputProjectionMicroVitConfig,
) -> (plan: MicroVitProjectionPlan)
    requires
        micro_vit_fits(embed_dim, *config),
    ensures
        is_micro_vit_plan(embed_dim, patch_size, *config, plan),
{
    let layers: usize = resolve_micro_vit_layers(patch_size, config.layers);
    let heads: usize = resolve_micro_vit_heads(embed_dim, patch_size, config.heads);
    let mlp_ratio: usize = max_one(config.mlp_ratio);
    let radial_hidden_dim: usize = resolve_radial_hidden_dim(embed_dim, config.radial_hidden_dim);
    let count: usize = radial_params(embed_dim, radial_hidden_dim);
    let block: usize = micro_vit_block_params(embed_dim, mlp_ratio);
    assert(block * layers >= 0) by (nonlinear_arith);
    MicroVitProjectionPlan {
        layers,
        heads,
        head_dim: max_one(embed_dim / heads),
        mlp_ratio,
        mlp_dim: max_one(sat_mul(embed_dim, mlp_ratio)),
        radial_hidden_dim,
        param_count: sat_add(count, sat_mul(block, layers)),
    }
}

/// The parameters of the linear projection: its norm and its layer.
pub fn linear_projection_params(embed_dim: usize) -> (n: usize)
    requires
        saturated(linear_count(embed_dim as int, embed_dim as int)) + saturated(embed_dim * 2)
            <= usize::MAX,
    ensures
        n == saturated(linear_count(embed_dim as int, embed_dim as int)) + saturated(embed_dim * 2),
{
    linear_params(embed_dim, embed_dim) + layer_norm_params(embed_dim)
}

/// The sizes of the configured projection.
#[derive(Clone, Copy, Debug, PartialEq, Eq, Structural)]
pub enum InputProjectionPlan {
    Linear { param_count: usize },
    Cnn(CnnProjectionPlan),
    RadialMicroVit(MicroVitProjectionPlan),
}

impl InputProjectionPlan {
    /// The parameters of the projection.
    pub open spec fn params(self) -> usize {
        match self {
            InputProjectionPlan::Linear { param_count } => param_count,
            InputProjectionPlan::Cnn(plan) => plan.param_count,
            InputProjectionPlan::RadialMicroVit(plan) => plan.param_count,
        }
    }

    /// The parameters of the projection.
    pub fn param_count(&self) -> (n: usize)
        ensures
            n == self.params(),
    {
        match self {
            InputProjectionPlan::Linear { param_count } => *param_count,
            InputProjectionPlan::Cnn(plan) => plan.param_count,
            InputProjectionPlan::RadialMicroVit(plan) => plan.param_count,
        }
    }
}

/// Whether the parameters of the configured projection can be counted.
pub open spec fn projection_fits(
    embed_dim: usize,
    patch_size: usize,
    config: VisionSaccadeInputProjectionConfig,
) -> bool {
    match config {
        VisionSaccadeInputProjectionConfig::Linear => saturated(
            linear_count(embed_dim as int, embed_dim as int),
        ) + saturated(embed_dim * 2) <= usize::MAX,
        VisionSaccadeInputProjectionConfig::Cnn(cnn) => cnn_fits(embed_dim, patch_size, cnn),
        VisionSaccadeInputProjectionConfig::RadialMicroVit(vit) => micro_vit_fits(embed_dim, vit),
    }
}

/// The sizes of the projection that `config` asks for.
pub fn plan_input_projection(
    embed_dim: usize,
    patch_size: usize,
    config: &VisionSaccadeInputProjectionConfig,
) -> (plan: InputProjectionPlan)
    requires
        projection_fits(embed_dim, patch_size, *config),
    ensures
        match *config {
            VisionSaccadeInputProjectionConfig::Linear => plan == (InputProjectionPlan::Linear {
                param_count: (saturated(linear_count(embed_dim as int, embed_dim as int))
                    + saturated(embed_dim * 2)) as usize,
            }),
            VisionSaccadeInputProjectionConfig::Cnn(cnn) => plan matches InputProjectionPlan::Cnn(
                sizes,
            ) && is_cnn_plan(embed_dim, patch_size, cnn, sizes),
            VisionSaccadeInputProjectionConfig::RadialMicroVit(vit) => plan matches
                InputProjectionPlan::RadialMicroVit(sizes) && is_micro_vit_plan(
                embed_dim,
                patch_size,
                vit,
                sizes,
            ),
        },
{
    match config {
        VisionSaccadeInputProjectionConfig::Linear => InputProjectionPlan::Linear {
            param_count: linear_projection_params(embed_dim),
        },
        VisionSaccadeInputProjectionConfig::Cnn(cnn) => InputProjectionPlan::Cnn(
            plan_cnn_projection(embed_dim, patch_size, cnn),
        ),
        VisionSaccadeInputProjectionConfig::RadialMicroVit(vit) =>
            InputProjectionPlan::RadialMicroVit(
                plan_micro_vit_projection(embed_dim, patch_size, vit),
            ),
    }
}

/// Whether `image` lays `tokens` (one plane per token, one row of features) out on a grid: feature
/// `c` of token `y * width + x` becomes pixel `(y, x)` of plane `c`.
pub open spec fn is_token_image<T>(
    image: &FrameBatch<T>,
    tokens: &FrameBatch<T>,
    grid_h: int,
    grid_w: int,
) -> bool {
    &&& image.wf()
    &&& image.batch == tokens.batch
    &&& image.channels == tokens.width
    &&& image.height == grid_h
    &&& image.width == grid_w
    &&& forall|b: int, c: int, y: int, x: int|
        image.in_bounds(b, c, y, x) ==> #[trigger] image.at(b, c, y, x) == tokens.at(
            b,
            y * grid_w + x,
            0,
            c,
        )
}

/// Whether `tokens` reads an image off row by row, one token per pixel.
pub open spec fn is_image_tokens<T>(tokens: &FrameBatch<T>, image: &FrameBatch<T>) -> bool {
    &&& tokens.wf()
    &&& tokens.batch == image.batch
    &&& tokens.channels == image.height * image.width
    &&& tokens.height == 1
    &&& tokens.width == image.channels
    &&& forall|b: int, t: int, y: int, c: int|
        tokens.in_bounds(b, t, y, c) ==> #[trigger] tokens.at(b, t, y, c) == image.at(
            b,
            c,
            t / image.width as int,
            t % image.width as int,
        )
}

/// Lays tokens out on a grid.
pub fn tokens_to_image<T: Copy>(tokens: &FrameBatch<T>, grid_h: usize, grid_w: usize) -> (image:
    FrameBatch<T>)
    requires
        tokens.wf(),
        tokens.height == 1,
        tokens.channels == at_least_one(grid_h as int) * at_least_one(grid_w as int),
    ensures
        is_token_image(
            &image,
            tokens,
            at_least_one(grid_h as int),
            at_least_one(grid_w as int),
        ),
{
    let h: usize = max_one(grid_h);
    let w: usize = max_one(grid_w);
    let total: usize = tokens.data.len();
    assert(volume(tokens.batch as int, tokens.width as int, h as int, w as int) == total)
        by (nonlinear_arith)
        requires
            volume(tokens.batch as int, tokens.width as int, h as int, w as int) == tokens.batch
                * tokens.width * h * w,
            total == tokens.batch * tokens.channels * tokens.height * tokens.width,
            tokens.height == 1,
            tokens.channels == h * w,
    ;
    let image = build_frames(
        tokens.batch,
        tokens.width,
        h,
        w,
        |b: usize, c: usize, y: usize, x: usize| -> (r: T)
            requires
                within(b, c, y, x, tokens.batch, tokens.width, h, w),
            ensures
                r == tokens.at(b as int, y * w + x, 0, c as int)
            {
                assert(0 <= y * w && y * w + x < h * w) by (nonlinear_arith)
                    requires
                        y + 1 <= h,
                        x < w,
                        y >= 0,
                        x >= 0,
                ;
                tokens.get(b, y * w + x, 0, c)
            },
    );
    assert forall|b: int, c: int, y: int, x: int|
        image.in_bounds(b, c, y, x) implies #[trigger] image.at(b, c, y, x) == tokens.at(
        b,
        y * w + x,
        0,
        c,
    ) by {
        let (bu, cu, yu, xu) = (b as usize, c as usize, y as usize, x as usize);
        assert(image.at(bu as int, cu as int, yu as int, xu as int) == image.at(b, c, y, x));
    }
    image
}

proof fn lemma_token_position(t: int, height: int, width: int)
    requires
        0 <= t < height * width,
        height >= 0,
        width >= 0,
    ensures
        width > 0,
        0 <= t / width < height,
        0 <= t % width < width,
        (t / width) * width + t % width == t,
{
    assert(width > 0) by (nonlinear_arith)
        requires
            0 <= t < height * width,
            width >= 0,
    ;
    lemma_fundamental_div_mod(t, width);
    assert(0 <= t / width < height) by (nonlinear_arith)
        requires
            0 <= t < height * width,
            width > 0,
    ;
    vstd::arithmetic::mul::lemma_mul_is_commutative(width, t / width);
}

/// Reads an image off row by row.
pub fn image_to_tokens<T: Copy>(image: &FrameBatch<T>) -> (tokens: FrameBatch<T>)
    requires
        image.wf(),
        image.height * image.width <= usize::MAX,
    ensures
        is_image_tokens(&tokens, image),
{
    let count: usize = image.height * image.width;
    let total: usize = image.data.len();
    let ghost h = image.height as int;
    let ghost w = image.width as int;
    assert(volume(image.batch as int, count as int, 1, image.channels as int) == total)
        by (nonlinear_arith)
        requires
            volume(image.batch as int, count as int, 1, image.channels as int) == image.batch * count
                * 1 * image.channels,
            total == image.batch * image.channels * image.height * image.width,
            count == image.height * image.width,
    ;
    let tokens = build_frames(
        image.batch,
        count,
        1,
        image.channels,
        |b: usize, t: usize, y: usize, c: usize| -> (r: T)
            requires
                within(b, t, y, c, image.batch, count, 1, image.channels),
            ensures
                r == image.at(b as int, c as int, t as int / w, t as int % w)
            {
                proof {
                    lemma_token_position(t as int, h, w);
                }
                image.get(b, c, t / image.width, t % image.width)
            },
    );
    assert forall|b: int, t: int, y: int, c: int|
        tokens.in_bounds(b, t, y, c) implies #[trigger] tokens.at(b, t, y, c) == image.at(
        b,
        c,
        t / w,
        t % w,
    ) by {
        let (bu, tu, yu, cu) = (b as usize, t as usize, y as usize, c as usize);
        assert(tokens.at(bu as int, tu as int, yu as int, cu as int) == tokens.at(b, t, y, c));
    }
    tokens
}

/// Reading an image off gives back the tokens that were laid out on it.
pub proof fn law_image_gives_the_tokens_back<T>(
    tokens: &FrameBatch<T>,
    image: &FrameBatch<T>,
    back: &FrameBatch<T>,
    grid_h: int,
    grid_w: int,
)
    requires
        tokens.wf(),
        tokens.height == 1,
        grid_h >= 0,
        grid_w >= 0,
        tokens.channels == grid_h * grid_w,
        is_token_image(image, tokens, grid_h, grid_w),
        is_image_tokens(back, image),
    ensures
        back.same_shape(tokens),
        back.data@ == tokens.data@,
{
    assert forall|b: int, t: int, y: int, c: int| back.in_bounds(b, t, y, c) implies #[trigger] back.at(
        b,
        t,
        y,
        c,
    ) == tokens.at(b, t, y, c) by {
        lemma_token_position(t, grid_h, grid_w);
        assert(image.in_bounds(b, c, t / grid_w, t % grid_w));
        assert(image.at(b, c, t / grid_w, t % grid_w) == tokens.at(b, t, 0, c));
    }
    lemma_frames_equal(back, tokens);
}

/// Whether `split` gives every head its own plane: feature `x` of head `h` of token `t` is feature
/// `h * head_dim + x` of the token.
pub open spec fn is_head_split<T>(
    split: &FrameBatch<T>,
    tokens: &FrameBatch<T>,
    heads: int,
    head_dim: int,
) -> bool {
    &&& split.wf()
    &&& split.batch == tokens.batch
    &&& split.channels == heads
    &&& split.height == tokens.channels
    &&& split.width == head_dim
    &&& forall|b: int, h: int, t: int, x: int|
        split.in_bounds(b, h, t, x) ==> #[trigger] split.at(b, h, t, x) == tokens.at(
            b,
            t,
            0,
            h * head_dim + x,
        )
}

/// Whether `tokens` joins the heads of every token again.
pub open spec fn is_head_merge<T>(tokens: &FrameBatch<T>, split: &FrameBatch<T>) -> bool {
    &&& tokens.wf()
    &&& tokens.batch == split.batch
    &&& tokens.channels == split.height
    &&& tokens.height == 1
    &&& tokens.width == split.channels * split.width
    &&& forall|b: int, t: int, y: int, c: int|
        tokens.in_bounds(b, t, y, c) ==> #[trigger] tokens.at(b, t, y, c) == split.at(
            b,
            c / split.width as int,
            t,
            c % split.width as int,
        )
}

/// Gives every attention head its own plane.
pub fn split_heads<T: Copy>(tokens: &FrameBatch<T>, heads: usize, head_dim: usize) -> (split:
    FrameBatch<T>)
    requires
        tokens.wf(),
        tokens.height == 1,
        tokens.width == heads * head_dim,
    ensures
        is_head_split(&split, tokens, heads as int, head_dim as int),
{
    let total: usize = tokens.data.len();
    assert(volume(tokens.batch as int, heads as int, tokens.channels as int, head_dim as int)
        == total) by (nonlinear_arith)
        requires
            volume(tokens.batch as int, heads as int, tokens.channels as int, head_dim as int)
                == tokens.batch * heads * tokens.channels * head_dim,
            total == tokens.batch * tokens.channels * tokens.height * tokens.width,
            tokens.height == 1,
            tokens.width == heads * head_dim,
    ;
    let split = build_frames(
        tokens.batch,
        heads,
        tokens.channels,
        head_dim,
        |b: usize, h: usize, t: usize, x: usize| -> (r: T)
            requires
                within(b, h, t, x, tokens.batch, heads, tokens.channels, head_dim),
            ensures
                r == tokens.at(b as int, t as int, 0, h * head_dim + x)
            {
                assert(0 <= h * head_dim && h * head_dim + x < heads * head_dim)
                    by (nonlinear_arith)
                    requires
                        h + 1 <= heads,
                        x < head_dim,
                        h >= 0,
                        x >= 0,
                ;
                tokens.get(b, t, 0, h * head_dim + x)
            },
    );
    assert forall|b: int, h: int, t: int, x: int|
        split.in_bounds(b, h, t, x) implies #[trigger] split.at(b, h, t, x) == tokens.at(
        b,
        t,
        0,
        h * head_dim + x,
    ) by {
        let (bu, hu, tu, xu) = (b as usize, h as usize, t as usize, x as usize);
        assert(split.at(bu as int, hu as int, tu as int, xu as int) == split.at(b, h, t, x));
    }
    split
}

/// Joins the attention heads of every token.
pub fn merge_heads<T: Copy>(split: &FrameBatch<T>) -> (tokens: FrameBatch<T>)
    requires
        split.wf(),
        split.channels * split.width <= usize::MAX,
    ensures
        is_head_merge(&tokens, split),
{
    let width: usize = split.channels * split.width;
    let total: usize = split.data.len();
    let ghost heads = split.channels as int;
    let ghost head_dim = split.width as int;
    assert(volume(split.batch as int, split.height as int, 1, width as int) == total)
        by (nonlinear_arith)
        requires
            volume(split.batch as int, split.height as int, 1, width as int) == split.batch
                * split.height * 1 * width,
            total == split.batch * split.channels * split.height * split.width,
            width == split.channels * split.width,
    ;
    let tokens = build_frames(
        split.batch,
        split.height,
        1,
        width,
        |b: usize, t: usize, y: usize, c: usize| -> (r: T)
            requires
                within(b, t, y, c, split.batch, split.height, 1, width),
            ensures
                r == split.at(b as int, c as int / head_dim, t as int, c as int % head_dim)
            {
                proof {
                    lemma_token_position(c as int, heads, head_dim);
                }
                split.get(b, c / split.width, t, c % split.width)
            },
    );
    assert forall|b: int, t: int, y: int, c: int|
        tokens.in_bounds(b, t, y, c) implies #[trigger] tokens.at(b, t, y, c) == split.at(
        b,
        c / head_dim,
        t,
        c % head_dim,
    ) by {
        let (bu, tu, yu, cu) = (b as usize, t as usize, y as usize, c as usize);
        assert(tokens.at(bu as int, tu as int, yu as int, cu as int) == tokens.at(b, t, y, c));
    }
    tokens
}

/// Joining the heads gives back the tokens that were split.
pub proof fn law_merge_undoes_split<T>(
    tokens: &FrameBatch<T>,
    split: &FrameBatch<T>,
    back: &FrameBatch<T>,
    heads: int,
    head_dim: int,
)
    requires
        tokens.wf(),
        tokens.height == 1,
        heads >= 0,
        head_dim >= 0,
        tokens.width == heads * head_dim,
        is_head_split(split, tokens, heads, head_dim),
        is_head_merge(back, split),
    ensures
        back.same_shape(tokens),
        back.data@ == tokens.data@,
{
    assert forall|b: int, t: int, y: int, c: int| back.in_bounds(b, t, y, c) implies #[trigger] back.at(
        b,
        t,
        y,
        c,
    ) == tokens.at(b, t, y, c) by {
        lemma_token_position(c, heads, head_dim);
        assert(split.in_bounds(b, c / head_dim, t, c % head_dim));
        assert(split.at(b, c / head_dim, t, c % head_dim) == tokens.at(b, t, 0, c));
    }
    lemma_frames_equal(back, tokens);
}

/// Splitting joined heads gives the planes back.
pub proof fn law_split_undoes_merge<T>(
    split: &FrameBatch<T>,
    tokens: &FrameBatch<T>,
    back: &FrameBatch<T>,
)
    requires
        split.wf(),
        is_head_merge(tokens, split),
        is_head_split(back, tokens, split.channels as int, split.width as int),
    ensures
        back.same_shape(split),
        back.data@ == split.data@,
{
    let head_dim = split.width as int;
    assert forall|b: int, h: int, t: int, x: int| back.in_bounds(b, h, t, x) implies #[trigger] back.at(
        b,
        h,
        t,
        x,
    ) == split.at(b, h, t, x) by {
        let c = h * head_dim + x;
        assert(0 <= c < split.channels * head_dim) by (nonlinear_arith)
            requires
                c == h * head_dim + x,
                0 <= h < split.channels,
                0 <= x < head_dim,
        ;
        lemma_fundamental_div_mod_converse(c, head_dim, h, x);
        assert(tokens.in_bounds(b, t, 0, c));
        assert(tokens.at(b, t, 0, c) == split.at(b, h, t, x));
    }
    lemma_frames_equal(back, split);
}

/// Tokens are laid out row by row: the token `x` places into row `y` becomes the pixel there, with
/// one plane for each feature.
pub proof fn law_tokens_are_laid_out_row_by_row<T>(
    image: &FrameBatch<T>,
    tokens: &FrameBatch<T>,
    grid_h: int,
    grid_w: int,
    first: int,
    b: int,
    c: int,
    y: int,
    x: int,
)
    requires
        is_token_image(image, tokens, grid_h, grid_w),
        image.in_bounds(b, c, y, x),
        first == y * grid_w,
    ensures
        image.at(b, c, y, x) == tokens.at(b, first + x, 0, c),
{
}

/// An image is read off row by row: the pixel `x` places into row `y` becomes the token there.
pub proof fn law_images_are_read_row_by_row<T>(
    tokens: &FrameBatch<T>,
    image: &FrameBatch<T>,
    b: int,
    c: int,
    y: int,
    x: int,
)
    requires
        is_image_tokens(tokens, image),
        image.in_bounds(b, c, y, x),
    ensures
        tokens.in_bounds(b, y * image.width + x, 0, c),
        tokens.at(b, y * image.width + x, 0, c) == image.at(b, c, y, x),
{
    let (h, w) = (image.height as int, image.width as int);
    assert(0 <= y * w && y * w + w <= h * w) by (nonlinear_arith)
        requires
            0 <= y < h,
            w >= 0,
    ;
    vstd::arithmetic::div_mod::lemma_fundamental_div_mod_converse(y * w + x, w, y, x);
    let _ = tokens.at(b, y * w + x, 0, c);
}

/// A head has a run of neighbouring features of each token, head after head.
pub proof fn law_heads_have_neighbouring_features<T>(
    split: &FrameBatch<T>,
    tokens: &FrameBatch<T>,
    heads: int,
    head_dim: int,
    first: int,
    b: int,
    h: int,
    t: int,
    x: int,
)
    requires
        is_head_split(split, tokens, heads, head_dim),
        split.in_bounds(b, h, t, x),
        first == h * head_dim,
    ensures
        split.at(b, h, t, x) == tokens.at(b, t, 0, first + x),
{
}

/// Joined heads stand behind each other in each token, head after head.
pub proof fn law_joined_heads_stand_behind_each_other<T>(
    tokens: &FrameBatch<T>,
    split: &FrameBatch<T>,
    b: int,
    h: int,
    t: int,
    x: int,
)
    requires
        is_head_merge(tokens, split),
        split.in_bounds(b, h, t, x),
    ensures
        tokens.in_bounds(b, t, 0, h * split.width + x),
        tokens.at(b, t, 0, h * split.width + x) == split.at(b, h, t, x),
{
    let (n, w) = (split.channels as int, split.width as int);
    assert(0 <= h * w && h * w + w <= n * w) by (nonlinear_arith)
        requires
            0 <= h < n,
            w >= 0,
    ;
    vstd::arithmetic::div_mod::lemma_fundamental_div_mod_converse(h * w + x, w, h, x);
    let _ = tokens.at(b, t, 0, h * w + x);
}

/// Tokens that form a square are laid out as one; any other number of them stands in a row. The grid
/// always has as many places as there are tokens, and one where there are none.
pub proof fn law_square_numbers_are_laid_out_as_squares(tokens: int, grid: (usize, usize), side: nat)
    requires
        tokens >= 1,
        is_token_grid(tokens, grid),
    ensures
        grid.0 * grid.1 == tokens,
        side * side == tokens ==> grid.0 == side && grid.1 == side,
        grid.0 != grid.1 ==> grid.0 == 1,
{
    if side * side == tokens {
        crate::numeric::law_square_side_is_unique(side, grid.0 as nat);
    }
}

/// The scale of a patch is its side in sixteens, rounded down, but at least one.
pub proof fn law_patch_scales_count_sixteens(patch_size: int)
    requires
        patch_size >= 0,
    ensures
        patch_scale(patch_size) >= 1,
        patch_size < 32 ==> patch_scale(patch_size) == 1,
        patch_size >= 16 ==> 16 * patch_scale(patch_size) <= patch_size < 16 * (patch_scale(
            patch_size,
        ) + 1),
{
}

/// A kernel that is not configured is odd: it starts at three, and grows by two where the patch scale
/// doubles, until it reaches seven.
pub proof fn law_kernels_grow_with_the_patch(patch_size: int, kernel: int)
    requires
        patch_size >= 0,
        kernel >= 0,
    ensures
        kernel >= 1 ==> cnn_kernel(patch_size, kernel) == kernel,
        patch_size < 32 ==> cnn_kernel(patch_size, 0) == 3,
        32 <= patch_size < 64 ==> cnn_kernel(patch_size, 0) == 5,
        64 <= patch_size ==> cnn_kernel(patch_size, 0) == 7,
{
    reveal_with_fuel(bit_length, 4);
    let scale = patch_scale(patch_size);
    if patch_size >= 64 {
        assert(scale >= 4);
        assert(scale as nat / 2 >= 2);
        assert(scale as nat / 2 / 2 >= 1);
    } else if patch_size >= 32 {
        assert(2 <= scale <= 3);
        assert(scale as nat / 2 == 1);
    }
}

/// No more heads are wanted than configured, and no more than features, but always one. Where the
/// number is left open it is two for each sixteen of the patch, up to eight.
pub proof fn law_wanted_heads_fit_the_width(embed_dim: int, patch_size: int, heads: int)
    requires
        embed_dim >= 1,
        patch_size >= 0,
        heads >= 0,
    ensures
        ({
            let wanted = wanted_heads(embed_dim, patch_size, heads);
            &&& 1 <= wanted <= embed_dim
            &&& heads >= 1 ==> wanted <= heads
            &&& heads >= 1 && heads <= embed_dim ==> wanted == heads
            &&& heads == 0 ==> wanted <= 8
            &&& heads == 0 && embed_dim >= 8 ==> (patch_size < 32 ==> wanted == 2) && (patch_size
                >= 64 ==> wanted == 8) && (48 <= patch_size < 64 ==> wanted == 6) && (32
                <= patch_size < 48 ==> wanted == 4)
        }),
{
}

/// Channels that are not configured are as many as features, and always one.
pub proof fn law_open_channels_follow_the_width(embed_dim: int, channels: Option<usize>)
    ensures
        cnn_channels(embed_dim, channels) >= 1,
        channels matches Some(c) ==> c >= 1 ==> cnn_channels(embed_dim, channels) == c,
        (channels is None || channels == Some(0usize)) && embed_dim >= 1 ==> cnn_channels(
            embed_dim,
            channels,
        ) == embed_dim,
{
}

/// A radial width that is not configured is half that of the features, but no less than eight.
pub proof fn law_open_radial_width_is_half(embed_dim: int, hidden_dim: int)
    requires
        embed_dim >= 0,
    ensures
        hidden_dim >= 1 ==> radial_hidden(embed_dim, hidden_dim) == hidden_dim,
        hidden_dim == 0 ==> radial_hidden(embed_dim, hidden_dim) >= 8,
        hidden_dim == 0 && embed_dim >= 16 ==> 0 <= embed_dim - 2 * radial_hidden(
            embed_dim,
            hidden_dim,
        ) <= 1,
        hidden_dim == 0 && embed_dim < 16 ==> radial_hidden(embed_dim, hidden_dim) == 8,
{
}

/// A linear layer has a bias and as many weights as inputs for each output.
pub proof fn law_each_output_has_a_bias(in_dim: int, out_dim: int)
    ensures
        linear_count(in_dim, 0) == 0,
        linear_count(in_dim, out_dim + 1) == linear_count(in_dim, out_dim) + in_dim + 1,
{
    assert(in_dim * (out_dim + 1) == in_dim * out_dim + in_dim) by (nonlinear_arith);
}

/// A convolution is a linear layer over the window of its group: without groups over all channels in
/// it, and with a group for each channel over that channel alone.
pub proof fn law_convolutions_are_linear_over_their_window(in_ch: int, out_ch: int, kernel: int)
    requires
        in_ch >= 1,
    ensures
        conv_count(in_ch, out_ch, kernel, 1) == linear_count(in_ch * (kernel * kernel), out_ch),
        conv_count(in_ch, out_ch, kernel, in_ch) == linear_count(kernel * kernel, out_ch),
        conv_count(in_ch, out_ch, kernel, 0) == conv_count(in_ch, out_ch, kernel, 1),
        conv_count(in_ch, out_ch, 1, 1) == linear_count(in_ch, out_ch),
{
    let area = kernel * kernel;
    assert(in_ch / in_ch == 1) by (nonlinear_arith)
        requires
            in_ch >= 1,
    ;
    assert(in_ch / 1 == in_ch);
    assert((out_ch * in_ch) * area == (in_ch * area) * out_ch) by (nonlinear_arith);
    assert(conv_count(in_ch, out_ch, kernel, 1) == (out_ch * in_ch) * area + out_ch);
    assert(out_ch * 1 * area == area * out_ch) by (nonlinear_arith);
    assert(out_ch * in_ch * (1 * 1) == in_ch * out_ch) by (nonlinear_arith);
}

/// A convolutional block has a window for each channel, and the layers to the expanded channels and
/// back.
pub proof fn law_blocks_widen_and_narrow(
    channels: int,
    kernel: int,
    expansion: int,
    expanded: int,
)
    requires
        channels >= 1,
        expanded == channels * expansion,
        expanded >= 1,
        expanded <= usize::MAX,
        linear_count(kernel * kernel, channels) <= usize::MAX,
        linear_count(channels, expanded) <= usize::MAX,
        linear_count(expanded, channels) <= usize::MAX,
    ensures
        cnn_block_count(channels, kernel, expansion) == linear_count(kernel * kernel, channels)
            + linear_count(channels, expanded) + linear_count(expanded, channels),
{
    law_convolutions_are_linear_over_their_window(channels, channels, kernel);
    law_convolutions_are_linear_over_their_window(channels, expanded, 1);
    law_convolutions_are_linear_over_their_window(expanded, channels, 1);
}

/// A transformer block has two norms, the layers to queries, keys and values and out of the
/// attention, and those to the hidden width and back.
pub proof fn law_transformer_blocks_attend_and_feed_forward(
    embed_dim: int,
    mlp_ratio: int,
    hidden: int,
)
    requires
        embed_dim >= 1,
        hidden == embed_dim * mlp_ratio,
        1 <= hidden <= usize::MAX,
        embed_dim * 2 <= usize::MAX,
        3 * linear_count(embed_dim, embed_dim) <= usize::MAX,
        linear_count(embed_dim, hidden) <= usize::MAX,
        linear_count(hidden, embed_dim) <= usize::MAX,
    ensures
        micro_vit_block_count(embed_dim, mlp_ratio) == 4 * embed_dim + 4 * linear_count(
            embed_dim,
            embed_dim,
        ) + linear_count(embed_dim, hidden) + linear_count(hidden, embed_dim),
{
    assert(embed_dim * (embed_dim * 3) == 3 * (embed_dim * embed_dim)) by (nonlinear_arith);
    assert(embed_dim * embed_dim >= 0) by (nonlinear_arith);
}

/// The radial embedding leads from one number over its hidden width to the features.
pub proof fn law_radial_layers_lead_from_one_number(embed_dim: int, hidden_dim: int)
    requires
        hidden_dim >= 1,
        hidden_dim * 2 <= usize::MAX,
        linear_count(hidden_dim, embed_dim) <= usize::MAX,
    ensures
        radial_count(embed_dim, hidden_dim) == 2 * hidden_dim + linear_count(hidden_dim, embed_dim),
{
}

/// Outside its blocks the convolutional projection has a norm, and the layers to its channels and
/// back.
pub proof fn law_frames_lead_to_the_channels_and_back(embed_dim: int, channels: int)
    requires
        embed_dim * 2 <= usize::MAX,
        linear_count(embed_dim, channels) <= usize::MAX,
        linear_count(channels, embed_dim) <= usize::MAX,
    ensures
        cnn_frame_count(embed_dim, channels) == 2 * embed_dim + linear_count(embed_dim, channels)
            + linear_count(channels, embed_dim),
{
}

/// What is configured of a convolutional projection is taken, and what is left open follows the width
/// and the patch. Each block adds as many parameters as any other.
pub proof fn law_configured_sizes_are_taken(
    embed_dim: usize,
    patch_size: usize,
    config: VisionSaccadeInputProjectionCnnConfig,
    plan: CnnProjectionPlan,
)
    requires
        is_cnn_plan(embed_dim, patch_size, config, plan),
    ensures
        config.channels matches Some(c) ==> c >= 1 ==> plan.channels == c,
        config.channels is None && embed_dim >= 1 ==> plan.channels == embed_dim,
        config.expansion >= 1 ==> plan.expansion == config.expansion,
        config.expansion == 0 ==> plan.expansion == 1,
        config.kernel >= 1 ==> plan.kernel == config.kernel,
        config.kernel == 0 && patch_size < 32 ==> plan.kernel == 3,
        config.blocks >= 1 ==> plan.blocks == config.blocks,
        ({
            let block = cnn_block_count(
                plan.channels as int,
                plan.kernel as int,
                plan.expansion as int,
            );
            let frame = cnn_frame_count(embed_dim as int, plan.channels as int);
            frame + block * plan.blocks <= usize::MAX ==> plan.param_count == frame + block
                * plan.blocks
        }),
{
    law_kernels_grow_with_the_patch(patch_size as int, config.kernel as int);
}

/// What is configured of a transformer projection is taken. Its heads share the features evenly, and
/// no more heads that were wanted could.
pub proof fn law_heads_share_the_features(
    embed_dim: usize,
    patch_size: usize,
    config: VisionSaccadeInputProjectionMicroVitConfig,
    plan: MicroVitProjectionPlan,
    k: int,
)
    requires
        is_micro_vit_plan(embed_dim, patch_size, config, plan),
        embed_dim >= 1,
    ensures
        plan.heads >= 1 && plan.heads * plan.head_dim == embed_dim,
        plan.heads < k <= wanted_heads(embed_dim as int, patch_size as int, config.heads as int)
            ==> embed_dim as int % k != 0,
        config.heads >= 1 ==> plan.heads <= config.heads,
        config.layers >= 1 ==> plan.layers == config.layers,
        config.layers == 0 && patch_size < 32 ==> plan.layers == 1,
        config.mlp_ratio >= 1 && embed_dim * config.mlp_ratio <= usize::MAX ==> plan.mlp_dim
            == embed_dim * config.mlp_ratio,
        config.radial_hidden_dim >= 1 ==> plan.radial_hidden_dim == config.radial_hidden_dim,
        ({
            let block = micro_vit_block_count(embed_dim as int, plan.mlp_ratio as int);
            let radial = radial_count(embed_dim as int, plan.radial_hidden_dim as int);
            radial + block * plan.layers <= usize::MAX ==> plan.param_count == radial + block
                * plan.layers
        }),
{
    let (n, h) = (embed_dim as int, plan.heads as int);
    lemma_fundamental_div_mod(n, h);
    assert(n / h >= 1) by (nonlinear_arith)
        requires
            n == h * (n / h),
            n >= 1,
            h >= 1,
    ;
    reveal_with_fuel(bit_length, 3);
    law_wanted_heads_fit_the_width(n, patch_size as int, config.heads as int);
    if config.mlp_ratio >= 1 {
        assert(embed_dim * config.mlp_ratio >= 1) by (nonlinear_arith)
            requires
                embed_dim >= 1,
                config.mlp_ratio >= 1,
        ;
    }
}

} // verus!
