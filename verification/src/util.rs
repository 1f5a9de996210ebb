//! Pure color arithmetic: fixed-point tint multiply, fog interpolation with a
//! fixed-point weight, and clamping.

use vstd::prelude::*;

verus! {

/// Fixed-point denominator for fog weights: a weight `k` with
/// `0 <= k <= FOG_ONE` stands for the real blend factor `k / FOG_ONE`,
/// so `FOG_ONE` is full primitive color and `0` is full fog color.
pub const FOG_ONE: u32 = 65536;

/// One tinted channel: `floor(a * b / 256)`. Full white tint (255) darkens a
/// full white channel (255) to 254: the truncation is deliberate and is part
/// of the rendered output.
pub open spec fn mul_channel(a: u8, b: u8) -> u8 {
    ((a * b) / 256) as u8
}

/// Tint multiply over whole 3-byte colors.
pub open spec fn mul_spec(a: Seq<u8>, b: Seq<u8>) -> Seq<u8>
    recommends
        a.len() == 3,
        b.len() == 3,
{
    seq![mul_channel(a[0], b[0]), mul_channel(a[1], b[1]), mul_channel(a[2], b[2])]
}

/// One fog-mixed channel: `round(a * (k/FOG_ONE) + b * (1 - k/FOG_ONE))`,
/// computed exactly over the fixed-point weight.
pub open spec fn mix_channel(a: u8, b: u8, k: int) -> u8
    recommends
        0 <= k <= FOG_ONE,
{
    ((a * k + b * (FOG_ONE - k) + FOG_ONE / 2) / (FOG_ONE as int)) as u8
}

/// Fog mix over whole 3-byte colors.
pub open spec fn mix_spec(a: Seq<u8>, b: Seq<u8>, k: int) -> Seq<u8>
    recommends
        a.len() == 3,
        b.len() == 3,
        0 <= k <= FOG_ONE,
{
    seq![mix_channel(a[0], b[0], k), mix_channel(a[1], b[1], k), mix_channel(a[2], b[2], k)]
}

/// `min(max(x, mn), mx)`.
pub open spec fn clamp_spec(x: int, mn: int, mx: int) -> int {
    let lo = if x < mn {
        mn
    } else {
        x
    };
    if lo > mx {
        mx
    } else {
        lo
    }
}

proof fn lemma_mul_channel_bound(a: u8, b: u8)
    ensures
        0 <= a * b <= 65025,
        0 <= (a * b) / 256 < 255,
{
    assert(0 <= a * b <= 65025) by (nonlinear_arith)
        requires
            a <= 255,
            b <= 255,
    ;
    vstd::arithmetic::div_mod::lemma_div_is_ordered(0, a * b, 256);
    vstd::arithmetic::div_mod::lemma_div_is_ordered(a * b, 65025, 256);
    vstd::arithmetic::div_mod::lemma_fundamental_div_mod_converse(65025, 256, 254, 1);
}

proof fn lemma_mix_channel_bound(a: u8, b: u8, k: int)
    requires
        0 <= k <= FOG_ONE,
    ensures
        0 <= a * k + b * (FOG_ONE - k) <= 255 * 65536,
        0 <= (a * k + b * (FOG_ONE - k) + FOG_ONE / 2) / (FOG_ONE as int) <= 255,
{
    assert(0 <= a * k + b * (FOG_ONE - k) <= 255 * 65536) by (nonlinear_arith)
        requires
            a <= 255,
            b <= 255,
            0 <= k <= FOG_ONE,
            FOG_ONE == 65536,
    ;
    let sum = a * k + b * (FOG_ONE - k) + FOG_ONE / 2;
    vstd::arithmetic::div_mod::lemma_div_is_ordered(0, sum, 65536);
    vstd::arithmetic::div_mod::lemma_div_is_ordered(sum, 255int * 65536 + 32768, 65536);
    vstd::arithmetic::div_mod::lemma_fundamental_div_mod_converse(
        255int * 65536 + 32768,
        65536,
        255,
        32768,
    );
}

/// Per-channel tint multiply in 8.8 fixed point: each output channel is
/// `floor(base * tint / 256)`.
pub fn color_mul(c1: &[u8; 3], c2: &[u8; 3]) -> (r: [u8; 3])
    ensures
        r@ == mul_spec(c1@, c2@),
{
    proof {
        lemma_mul_channel_bound(c1[0], c2[0]);
        lemma_mul_channel_bound(c1[1], c2[1]);
        lemma_mul_channel_bound(c1[2], c2[2]);
    }
    let r = [
        ((c1[0] as u32) * (c2[0] as u32) / 256) as u8,
        ((c1[1] as u32) * (c2[1] as u32) / 256) as u8,
        ((c1[2] as u32) * (c2[2] as u32) / 256) as u8,
    ];
    proof {
        assert(r@ =~= mul_spec(c1@, c2@));
    }
    r
}

/// Per-channel linear interpolation between a primitive color `c1` and the
/// fog color `c2`, with rounding: weight `FOG_ONE` keeps `c1`, weight `0`
/// gives `c2`.
pub fn color_mix(c1: &[u8; 3], c2: &[u8; 3], k: u32) -> (r: [u8; 3])
    requires
        k <= FOG_ONE,
    ensures
        r@ == mix_spec(c1@, c2@, k as int),
{
    proof {
        lemma_mix_channel_bound(c1[0], c2[0], k as int);
        lemma_mix_channel_bound(c1[1], c2[1], k as int);
        lemma_mix_channel_bound(c1[2], c2[2], k as int);
    }
    let r = [
        (((c1[0] as u32) * k + (c2[0] as u32) * (FOG_ONE - k) + FOG_ONE / 2) / FOG_ONE) as u8,
        (((c1[1] as u32) * k + (c2[1] as u32) * (FOG_ONE - k) + FOG_ONE / 2) / FOG_ONE) as u8,
        (((c1[2] as u32) * k + (c2[2] as u32) * (FOG_ONE - k) + FOG_ONE / 2) / FOG_ONE) as u8,
    ];
    proof {
        assert(r@ =~= mix_spec(c1@, c2@, k as int));
    }
    r
}

/// `min(max(x, mn), mx)`.
pub fn clamp(x: i64, mn: i64, mx: i64) -> (r: i64)
    ensures
        r == clamp_spec(x as int, mn as int, mx as int),
{
    let lo = if x < mn {
        mn
    } else {
        x
    };
    if lo > mx {
        mx
    } else {
        lo
    }
}

/// A tint channel of zero blacks the channel out, whatever the base channel is.
pub proof fn lemma_tint_zero_channel(x: u8)
    ensures
        mul_channel(0, x) == 0,
        mul_channel(x, 0) == 0,
{
}

/// Fog mix endpoints: the full weight returns the primitive color unchanged,
/// the zero weight returns the fog color unchanged.
pub proof fn lemma_fog_mix_endpoints(a: u8, b: u8)
    ensures
        mix_channel(a, b, FOG_ONE as int) == a,
        mix_channel(a, b, 0) == b,
{
    vstd::arithmetic::div_mod::lemma_fundamental_div_mod_converse(
        a * 65536 + b * 0 + 32768,
        65536,
        a as int,
        32768,
    );
    vstd::arithmetic::div_mod::lemma_fundamental_div_mod_converse(
        a * 0 + b * 65536 + 32768,
        65536,
        b as int,
        32768,
    );
}

/// Fog mix endpoints over whole colors: `mix_spec(c1, c2, FOG_ONE) == c1` and
/// `mix_spec(c1, c2, 0) == c2` for any 3-byte colors.
pub proof fn lemma_fog_mix_endpoints_color(a: Seq<u8>, b: Seq<u8>)
    requires
        a.len() == 3,
        b.len() == 3,
    ensures
        mix_spec(a, b, FOG_ONE as int) == a,
        mix_spec(a, b, 0) == b,
{
    lemma_fog_mix_endpoints(a[0], b[0]);
    lemma_fog_mix_endpoints(a[1], b[1]);
    lemma_fog_mix_endpoints(a[2], b[2]);
    assert(mix_spec(a, b, FOG_ONE as int) =~= a);
    assert(mix_spec(a, b, 0) =~= b);
}

} // verus!
