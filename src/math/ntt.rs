//! The number-theoretic transform on 256 coefficients (FIPS 203, Algorithms 9
//! and 10), layer by layer.
use vstd::arithmetic::div_mod::{
    lemma_add_mod_noop, lemma_fundamental_div_mod, lemma_fundamental_div_mod_converse,
    lemma_mod_multiples_vanish, lemma_mul_mod_noop_left, lemma_mul_mod_noop_right, lemma_small_mod,
    lemma_sub_mod_noop,
};
use vstd::arithmetic::power2::{lemma2_to64, pow2};
use vstd::prelude::*;

use crate::constants::{K_NTT_ROOTS, N_INV_128};
use crate::math::field_element::{q, FieldElement as F};
use crate::math::ring_element::{all_reduced, coef_ints};

verus! {

/// The twiddle factor of index k, 17^bitrev7(k) mod q.
pub open spec fn zeta(k: int) -> int {
    (K_NTT_ROOTS@[k] as int) % q()
}

/// One layer of the forward NTT with butterflies of half-width len: in block b of
/// 2 * len coefficients, with zeta = zeta(128 / len + b), the pair (x, y) at
/// distance len becomes (x + zeta y, x - zeta y).
pub open spec fn ntt_layer(f: Seq<int>, len: int) -> Seq<int> {
    Seq::new(
        256,
        |j: int|
            {
                let z = zeta(128int / len + j / (2 * len));
                if j % (2 * len) < len {
                    (f[j] + (z * f[j + len]) % q()) % q()
                } else {
                    (f[j - len] - (z * f[j]) % q()) % q()
                }
            },
    )
}

/// One layer of the inverse NTT with butterflies of half-width len: in block b,
/// with zeta = zeta(256 / len - 1 - b), the pair (x, y) becomes
/// (x + y, zeta (y - x)).
pub open spec fn inv_ntt_layer(f: Seq<int>, len: int) -> Seq<int> {
    Seq::new(
        256,
        |j: int|
            {
                let z = zeta(256int / len - 1 - j / (2 * len));
                if j % (2 * len) < len {
                    (f[j] + f[j + len]) % q()
                } else {
                    (z * ((f[j] - f[j - len]) % q())) % q()
                }
            },
    )
}

/// The half-width of the butterflies of forward layer m: 128, 64, ..., 2.
pub open spec fn forward_len(m: nat) -> int
    decreases m,
{
    if m == 0 {
        128
    } else {
        forward_len((m - 1) as nat) / 2
    }
}

/// The first m layers of the forward NTT.
pub open spec fn ntt_layers(f: Seq<int>, m: nat) -> Seq<int>
    decreases m,
{
    if m == 0 {
        f
    } else {
        ntt_layer(ntt_layers(f, (m - 1) as nat), forward_len((m - 1) as nat))
    }
}

/// NTT(f): the seven forward layers.
pub open spec fn ntt_spec(f: Seq<int>) -> Seq<int> {
    ntt_layers(f, 7)
}

/// The half-width of the butterflies of inverse layer m: 2, 4, ..., 128.
pub open spec fn inverse_len(m: nat) -> int
    decreases m,
{
    if m == 0 {
        2
    } else {
        2 * inverse_len((m - 1) as nat)
    }
}

/// The first m layers of the inverse NTT.
pub open spec fn inv_ntt_layers(f: Seq<int>, m: nat) -> Seq<int>
    decreases m,
{
    if m == 0 {
        f
    } else {
        inv_ntt_layer(inv_ntt_layers(f, (m - 1) as nat), inverse_len((m - 1) as nat))
    }
}

/// NTT^-1(f): the seven inverse layers, then a factor 128^-1 = 3303 mod q.
pub open spec fn inv_ntt_spec(f: Seq<int>) -> Seq<int> {
    Seq::new(256, |j: int| (inv_ntt_layers(f, 7)[j] * 3303) % q())
}

/// A coefficient in a block of 2 * len that starts at blk * 2 * len lies in
/// block blk, at offset j - start.
proof fn lemma_block_index(j: int, blk: int, len: int)
    requires
        len > 0,
        blk >= 0,
        blk * (2 * len) <= j < blk * (2 * len) + 2 * len,
    ensures
        j / (2 * len) == blk,
        j % (2 * len) == j - blk * (2 * len),
{
    lemma_fundamental_div_mod_converse(j, 2 * len, blk, j - blk * (2 * len));
}

/// The twiddle factor of index k, reduced.
fn zeta_at(k: usize) -> (r: F)
    requires
        k < 128,
    ensures
        r.0 == zeta(k as int),
        r.0 < q(),
{
    F(K_NTT_ROOTS[k] % 3329)
}

/// The twiddle factors of the forward and inverse butterflies of block b in a
/// layer with m0 = 128 / len blocks multiply to -1 modulo q, for every block
/// up to b.
pub open spec fn zeta_pairs_hold(m0: int, b: int) -> bool
    decreases b + 1,
{
    if b < 0 {
        true
    } else {
        zeta_pairs_hold(m0, b - 1) && (zeta(m0 + b) * zeta(2 * m0 - 1 - b)) % q() == q() - 1
    }
}

/// What `zeta_pairs_hold` states of every block up to b holds of each of them.
proof fn lemma_zeta_pairs_hold_below(m0: int, b: int, c: int)
    requires
        zeta_pairs_hold(m0, b),
        0 <= c <= b,
    ensures
        (zeta(m0 + c) * zeta(2 * m0 - 1 - c)) % q() == q() - 1,
    decreases b,
{
    if c < b {
        lemma_zeta_pairs_hold_below(m0, b - 1, c);
    }
}

/// The forward and inverse twiddle factors pair up to -1 in the layer of 1 block.
proof fn lemma_zeta_pairs_1()
    ensures
        zeta_pairs_hold(1, 0),
{
    reveal_with_fuel(zeta_pairs_hold, 2);
    assert(K_NTT_ROOTS@[1] == 1729 && K_NTT_ROOTS@[1] == 1729);
    assert((1729int * 1729int) % 3329 == 3328);
    assert(zeta_pairs_hold(1, 0));
}

/// The forward and inverse twiddle factors pair up to -1 in the layer of 2 blocks.
proof fn lemma_zeta_pairs_2()
    ensures
        zeta_pairs_hold(2, 1),
{
    reveal_with_fuel(zeta_pairs_hold, 2);
    assert(K_NTT_ROOTS@[2] == 2580 && K_NTT_ROOTS@[3] == 3289);
    assert((2580int * 3289int) % 3329 == 3328);
    assert(zeta_pairs_hold(2, 0));
    assert(K_NTT_ROOTS@[3] == 3289 && K_NTT_ROOTS@[2] == 2580);
    assert((3289int * 2580int) % 3329 == 3328);
    assert(zeta_pairs_hold(2, 1));
}

/// The forward and inverse twiddle factors pair up to -1 in the layer of 4 blocks.
proof fn lemma_zeta_pairs_4()
    ensures
        zeta_pairs_hold(4, 3),
{
    reveal_with_fuel(zeta_pairs_hold, 2);
    assert(K_NTT_ROOTS@[4] == 2642 && K_NTT_ROOTS@[7] == 848);
    assert((2642int * 848int) % 3329 == 3328);
    assert(zeta_pairs_hold(4, 0));
    assert(K_NTT_ROOTS@[5] == 630 && K_NTT_ROOTS@[6] == 1897);
    assert((630int * 1897int) % 3329 == 3328);
    assert(zeta_pairs_hold(4, 1));
    assert(K_NTT_ROOTS@[6] == 1897 && K_NTT_ROOTS@[5] == 630);
    assert((1897int * 630int) % 3329 == 3328);
    assert(zeta_pairs_hold(4, 2));
    assert(K_NTT_ROOTS@[7] == 848 && K_NTT_ROOTS@[4] == 2642);
    assert((848int * 2642int) % 3329 == 3328);
    assert(zeta_pairs_hold(4, 3));
}

/// The forward and inverse twiddle factors pair up to -1 in the layer of 8 blocks.
proof fn lemma_zeta_pairs_8()
    ensures
        zeta_pairs_hold(8, 7),
{
    reveal_with_fuel(zeta_pairs_hold, 2);
    assert(K_NTT_ROOTS@[8] == 1062 && K_NTT_ROOTS@[15] == 1746);
    assert((1062int * 1746int) % 3329 == 3328);
    assert(zeta_pairs_hold(8, 0));
    assert(K_NTT_ROOTS@[9] == 1919 && K_NTT_ROOTS@[14] == 569);
    assert((1919int * 569int) % 3329 == 3328);
    assert(zeta_pairs_hold(8, 1));
    assert(K_NTT_ROOTS@[10] == 193 && K_NTT_ROOTS@[13] == 3260);
    assert((193int * 3260int) % 3329 == 3328);
    assert(zeta_pairs_hold(8, 2));
    assert(K_NTT_ROOTS@[11] == 797 && K_NTT_ROOTS@[12] == 2786);
    assert((797int * 2786int) % 3329 == 3328);
    assert(zeta_pairs_hold(8, 3));
    assert(K_NTT_ROOTS@[12] == 2786 && K_NTT_ROOTS@[11] == 797);
    assert((2786int * 797int) % 3329 == 3328);
    assert(zeta_pairs_hold(8, 4));
    assert(K_NTT_ROOTS@[13] == 3260 && K_NTT_ROOTS@[10] == 193);
    assert((3260int * 193int) % 3329 == 3328);
    assert(zeta_pairs_hold(8, 5));
    assert(K_NTT_ROOTS@[14] == 569 && K_NTT_ROOTS@[9] == 1919);
    assert((569int * 1919int) % 3329 == 3328);
    assert(zeta_pairs_hold(8, 6));
    assert(K_NTT_ROOTS@[15] == 1746 && K_NTT_ROOTS@[8] == 1062);
    assert((1746int * 1062int) % 3329 == 3328);
    assert(zeta_pairs_hold(8, 7));
}

/// The forward and inverse twiddle factors pair up to -1 in the layer of 16 blocks.
proof fn lemma_zeta_pairs_16()
    ensures
        zeta_pairs_hold(16, 15),
{
    reveal_with_fuel(zeta_pairs_hold, 2);
    assert(K_NTT_ROOTS@[16] == 296 && K_NTT_ROOTS@[31] == 821);
    assert((296int * 821int) % 3329 == 3328);
    assert(zeta_pairs_hold(16, 0));
    assert(K_NTT_ROOTS@[17] == 2447 && K_NTT_ROOTS@[30] == 1974);
    assert((2447int * 1974int) % 3329 == 3328);
    assert(zeta_pairs_hold(16, 1));
    assert(K_NTT_ROOTS@[18] == 1339 && K_NTT_ROOTS@[29] == 2879);
    assert((1339int * 2879int) % 3329 == 3328);
    assert(zeta_pairs_hold(16, 2));
    assert(K_NTT_ROOTS@[19] == 1476 && K_NTT_ROOTS@[28] == 2393);
    assert((1476int * 2393int) % 3329 == 3328);
    assert(zeta_pairs_hold(16, 3));
    assert(K_NTT_ROOTS@[20] == 3046 && K_NTT_ROOTS@[27] == 2882);
    assert((3046int * 2882int) % 3329 == 3328);
    assert(zeta_pairs_hold(16, 4));
    assert(K_NTT_ROOTS@[21] == 56 && K_NTT_ROOTS@[26] == 535);
    assert((56int * 535int) % 3329 == 3328);
    assert(zeta_pairs_hold(16, 5));
    assert(K_NTT_ROOTS@[22] == 2240 && K_NTT_ROOTS@[25] == 2094);
    assert((2240int * 2094int) % 3329 == 3328);
    assert(zeta_pairs_hold(16, 6));
    assert(K_NTT_ROOTS@[23] == 1333 && K_NTT_ROOTS@[24] == 1426);
    assert((1333int * 1426int) % 3329 == 3328);
    assert(zeta_pairs_hold(16, 7));
    assert(K_NTT_ROOTS@[24] == 1426 && K_NTT_ROOTS@[23] == 1333);
    assert((1426int * 1333int) % 3329 == 3328);
    assert(zeta_pairs_hold(16, 8));
    assert(K_NTT_ROOTS@[25] == 2094 && K_NTT_ROOTS@[22] == 2240);
    assert((2094int * 2240int) % 3329 == 3328);
    assert(zeta_pairs_hold(16, 9));
    assert(K_NTT_ROOTS@[26] == 535 && K_NTT_ROOTS@[21] == 56);
    assert((535int * 56int) % 3329 == 3328);
    assert(zeta_pairs_hold(16, 10));
    assert(K_NTT_ROOTS@[27] == 2882 && K_NTT_ROOTS@[20] == 3046);
    assert((2882int * 3046int) % 3329 == 3328);
    assert(zeta_pairs_hold(16, 11));
    assert(K_NTT_ROOTS@[28] == 2393 && K_NTT_ROOTS@[19] == 1476);
    assert((2393int * 1476int) % 3329 == 3328);
    assert(zeta_pairs_hold(16, 12));
    assert(K_NTT_ROOTS@[29] == 2879 && K_NTT_ROOTS@[18] == 1339);
    assert((2879int * 1339int) % 3329 == 3328);
    assert(zeta_pairs_hold(16, 13));
    assert(K_NTT_ROOTS@[30] == 1974 && K_NTT_ROOTS@[17] == 2447);
    assert((1974int * 2447int) % 3329 == 3328);
    assert(zeta_pairs_hold(16, 14));
    assert(K_NTT_ROOTS@[31] == 821 && K_NTT_ROOTS@[16] == 296);
    assert((821int * 296int) % 3329 == 3328);
    assert(zeta_pairs_hold(16, 15));
}

/// The forward and inverse twiddle factors pair up to -1 in the layer of 32 blocks.
proof fn lemma_zeta_pairs_32()
    ensures
        zeta_pairs_hold(32, 31),
{
    reveal_with_fuel(zeta_pairs_hold, 2);
    assert(K_NTT_ROOTS@[32] == 289 && K_NTT_ROOTS@[63] == 910);
    assert((289int * 910int) % 3329 == 3328);
    assert(zeta_pairs_hold(32, 0));
    assert(K_NTT_ROOTS@[33] == 331 && K_NTT_ROOTS@[62] == 1227);
    assert((331int * 1227int) % 3329 == 3328);
    assert(zeta_pairs_hold(32, 1));
    assert(K_NTT_ROOTS@[34] == 3253 && K_NTT_ROOTS@[61] == 3110);
    assert((3253int * 3110int) % 3329 == 3328);
    assert(zeta_pairs_hold(32, 2));
    assert(K_NTT_ROOTS@[35] == 1756 && K_NTT_ROOTS@[60] == 2474);
    assert((1756int * 2474int) % 3329 == 3328);
    assert(zeta_pairs_hold(32, 3));
    assert(K_NTT_ROOTS@[36] == 1197 && K_NTT_ROOTS@[59] == 648);
    assert((1197int * 648int) % 3329 == 3328);
    assert(zeta_pairs_hold(32, 4));
    assert(K_NTT_ROOTS@[37] == 2304 && K_NTT_ROOTS@[58] == 1481);
    assert((2304int * 1481int) % 3329 == 3328);
    assert(zeta_pairs_hold(32, 5));
    assert(K_NTT_ROOTS@[38] == 2277 && K_NTT_ROOTS@[57] == 2617);
    assert((2277int * 2617int) % 3329 == 3328);
    assert(zeta_pairs_hold(32, 6));
    assert(K_NTT_ROOTS@[39] == 2055 && K_NTT_ROOTS@[56] == 2647);
    assert((2055int * 2647int) % 3329 == 3328);
    assert(zeta_pairs_hold(32, 7));
    assert(K_NTT_ROOTS@[40] == 650 && K_NTT_ROOTS@[55] == 2402);
    assert((650int * 2402int) % 3329 == 3328);
    assert(zeta_pairs_hold(32, 8));
    assert(K_NTT_ROOTS@[41] == 1977 && K_NTT_ROOTS@[54] == 1534);
    assert((1977int * 1534int) % 3329 == 3328);
    assert(zeta_pairs_hold(32, 9));
    assert(K_NTT_ROOTS@[42] == 2513 && K_NTT_ROOTS@[53] == 2868);
    assert((2513int * 2868int) % 3329 == 3328);
    assert(zeta_pairs_hold(32, 10));
    assert(K_NTT_ROOTS@[43] == 632 && K_NTT_ROOTS@[52] == 1438);
    assert((632int * 1438int) % 3329 == 3328);
    assert(zeta_pairs_hold(32, 11));
    assert(K_NTT_ROOTS@[44] == 2865 && K_NTT_ROOTS@[51] == 452);
    assert((2865int * 452int) % 3329 == 3328);
    assert(zeta_pairs_hold(32, 12));
    assert(K_NTT_ROOTS@[45] == 33 && K_NTT_ROOTS@[50] == 807);
    assert((33int * 807int) % 3329 == 3328);
    assert(zeta_pairs_hold(32, 13));
    assert(K_NTT_ROOTS@[46] == 1320 && K_NTT_ROOTS@[49] == 1435);
    assert((1320int * 1435int) % 3329 == 3328);
    assert(zeta_pairs_hold(32, 14));
    assert(K_NTT_ROOTS@[47] == 1915 && K_NTT_ROOTS@[48] == 2319);
    assert((1915int * 2319int) % 3329 == 3328);
    assert(zeta_pairs_hold(32, 15));
    assert(K_NTT_ROOTS@[48] == 2319 && K_NTT_ROOTS@[47] == 1915);
    assert((2319int * 1915int) % 3329 == 3328);
    assert(zeta_pairs_hold(32, 16));
    assert(K_NTT_ROOTS@[49] == 1435 && K_NTT_ROOTS@[46] == 1320);
    assert((1435int * 1320int) % 3329 == 3328);
    assert(zeta_pairs_hold(32, 17));
    assert(K_NTT_ROOTS@[50] == 807 && K_NTT_ROOTS@[45] == 33);
    assert((807int * 33int) % 3329 == 3328);
    assert(zeta_pairs_hold(32, 18));
    assert(K_NTT_ROOTS@[51] == 452 && K_NTT_ROOTS@[44] == 2865);
    assert((452int * 2865int) % 3329 == 3328);
    assert(zeta_pairs_hold(32, 19));
    assert(K_NTT_ROOTS@[52] == 1438 && K_NTT_ROOTS@[43] == 632);
    assert((1438int * 632int) % 3329 == 3328);
    assert(zeta_pairs_hold(32, 20));
    assert(K_NTT_ROOTS@[53] == 2868 && K_NTT_ROOTS@[42] == 2513);
    assert((2868int * 2513int) % 3329 == 3328);
    assert(zeta_pairs_hold(32, 21));
    assert(K_NTT_ROOTS@[54] == 1534 && K_NTT_ROOTS@[41] == 1977);
    assert((1534int * 1977int) % 3329 == 3328);
    assert(zeta_pairs_hold(32, 22));
    assert(K_NTT_ROOTS@[55] == 2402 && K_NTT_ROOTS@[40] == 650);
    assert((2402int * 650int) % 3329 == 3328);
    assert(zeta_pairs_hold(32, 23));
    assert(K_NTT_ROOTS@[56] == 2647 && K_NTT_ROOTS@[39] == 2055);
    assert((2647int * 2055int) % 3329 == 3328);
    assert(zeta_pairs_hold(32, 24));
    assert(K_NTT_ROOTS@[57] == 2617 && K_NTT_ROOTS@[38] == 2277);
    assert((2617int * 2277int) % 3329 == 3328);
    assert(zeta_pairs_hold(32, 25));
    assert(K_NTT_ROOTS@[58] == 1481 && K_NTT_ROOTS@[37] == 2304);
    assert((1481int * 2304int) % 3329 == 3328);
    assert(zeta_pairs_hold(32, 26));
    assert(K_NTT_ROOTS@[59] == 648 && K_NTT_ROOTS@[36] == 1197);
    assert((648int * 1197int) % 3329 == 3328);
    assert(zeta_pairs_hold(32, 27));
    assert(K_NTT_ROOTS@[60] == 2474 && K_NTT_ROOTS@[35] == 1756);
    assert((2474int * 1756int) % 3329 == 3328);
    assert(zeta_pairs_hold(32, 28));
    assert(K_NTT_ROOTS@[61] == 3110 && K_NTT_ROOTS@[34] == 3253);
    assert((3110int * 3253int) % 3329 == 3328);
    assert(zeta_pairs_hold(32, 29));
    assert(K_NTT_ROOTS@[62] == 1227 && K_NTT_ROOTS@[33] == 331);
    assert((1227int * 331int) % 3329 == 3328);
    assert(zeta_pairs_hold(32, 30));
    assert(K_NTT_ROOTS@[63] == 910 && K_NTT_ROOTS@[32] == 289);
    assert((910int * 289int) % 3329 == 3328);
    assert(zeta_pairs_hold(32, 31));
}

/// The forward and inverse twiddle factors pair up to -1 in the layer of 64 blocks.
proof fn lemma_zeta_pairs_64()
    ensures
        zeta_pairs_hold(64, 63),
{
    reveal_with_fuel(zeta_pairs_hold, 2);
    assert(K_NTT_ROOTS@[64] == 17 && K_NTT_ROOTS@[127] == 2154);
    assert((17int * 2154int) % 3329 == 3328);
    assert(zeta_pairs_hold(64, 0));
    assert(K_NTT_ROOTS@[65] == 2761 && K_NTT_ROOTS@[126] == 885);
    assert((2761int * 885int) % 3329 == 3328);
    assert(zeta_pairs_hold(64, 1));
    assert(K_NTT_ROOTS@[66] == 583 && K_NTT_ROOTS@[125] == 2935);
    assert((583int * 2935int) % 3329 == 3328);
    assert(zeta_pairs_hold(64, 2));
    assert(K_NTT_ROOTS@[67] == 2649 && K_NTT_ROOTS@[124] == 2110);
    assert((2649int * 2110int) % 3329 == 3328);
    assert(zeta_pairs_hold(64, 3));
    assert(K_NTT_ROOTS@[68] == 1637 && K_NTT_ROOTS@[123] == 1029);
    assert((1637int * 1029int) % 3329 == 3328);
    assert(zeta_pairs_hold(64, 4));
    assert(K_NTT_ROOTS@[69] == 723 && K_NTT_ROOTS@[122] == 1874);
    assert((723int * 1874int) % 3329 == 3328);
    assert(zeta_pairs_hold(64, 5));
    assert(K_NTT_ROOTS@[70] == 2288 && K_NTT_ROOTS@[121] == 1212);
    assert((2288int * 1212int) % 3329 == 3328);
    assert(zeta_pairs_hold(64, 6));
    assert(K_NTT_ROOTS@[71] == 1100 && K_NTT_ROOTS@[120] == 1722);
    assert((1100int * 1722int) % 3329 == 3328);
    assert(zeta_pairs_hold(64, 7));
    assert(K_NTT_ROOTS@[72] == 1409 && K_NTT_ROOTS@[119] == 886);
    assert((1409int * 886int) % 3329 == 3328);
    assert(zeta_pairs_hold(64, 8));
    assert(K_NTT_ROOTS@[73] == 2662 && K_NTT_ROOTS@[118] == 2775);
    assert((2662int * 2775int) % 3329 == 3328);
    assert(zeta_pairs_hold(64, 9));
    assert(K_NTT_ROOTS@[74] == 3281 && K_NTT_ROOTS@[117] == 2150);
    assert((3281int * 2150int) % 3329 == 3328);
    assert(zeta_pairs_hold(64, 10));
    assert(K_NTT_ROOTS@[75] == 233 && K_NTT_ROOTS@[116] == 1143);
    assert((233int * 1143int) % 3329 == 3328);
    assert(zeta_pairs_hold(64, 11));
    assert(K_NTT_ROOTS@[76] == 756 && K_NTT_ROOTS@[115] == 1026);
    assert((756int * 1026int) % 3329 == 3328);
    assert(zeta_pairs_hold(64, 12));
    assert(K_NTT_ROOTS@[77] == 2156 && K_NTT_ROOTS@[114] == 403);
    assert((2156int * 403int) % 3329 == 3328);
    assert(zeta_pairs_hold(64, 13));
    assert(K_NTT_ROOTS@[78] == 3015 && K_NTT_ROOTS@[113] == 1092);
    assert((3015int * 1092int) % 3329 == 3328);
    assert(zeta_pairs_hold(64, 14));
    assert(K_NTT_ROOTS@[79] == 3050 && K_NTT_ROOTS@[112] == 2804);
    assert((3050int * 2804int) % 3329 == 3328);
    assert(zeta_pairs_hold(64, 15));
    assert(K_NTT_ROOTS@[80] == 1703 && K_NTT_ROOTS@[111] == 2594);
    assert((1703int * 2594int) % 3329 == 3328);
    assert(zeta_pairs_hold(64, 16));
    assert(K_NTT_ROOTS@[81] == 1651 && K_NTT_ROOTS@[110] == 2466);
    assert((1651int * 2466int) % 3329 == 3328);
    assert(zeta_pairs_hold(64, 17));
    assert(K_NTT_ROOTS@[82] == 2789 && K_NTT_ROOTS@[109] == 561);
    assert((2789int * 561int) % 3329 == 3328);
    assert(zeta_pairs_hold(64, 18));
    assert(K_NTT_ROOTS@[83] == 1789 && K_NTT_ROOTS@[108] == 2099);
    assert((1789int * 2099int) % 3329 == 3328);
    assert(zeta_pairs_hold(64, 19));
    assert(K_NTT_ROOTS@[84] == 1847 && K_NTT_ROOTS@[107] == 757);
    assert((1847int * 757int) % 3329 == 3328);
    assert(zeta_pairs_hold(64, 20));
    assert(K_NTT_ROOTS@[85] == 952 && K_NTT_ROOTS@[106] == 2773);
    assert((952int * 2773int) % 3329 == 3328);
    assert(zeta_pairs_hold(64, 21));
    assert(K_NTT_ROOTS@[86] == 1461 && K_NTT_ROOTS@[105] == 319);
    assert((1461int * 319int) % 3329 == 3328);
    assert(zeta_pairs_hold(64, 22));
    assert(K_NTT_ROOTS@[87] == 2687 && K_NTT_ROOTS@[104] == 1063);
    assert((2687int * 1063int) % 3329 == 3328);
    assert(zeta_pairs_hold(64, 23));
    assert(K_NTT_ROOTS@[88] == 939 && K_NTT_ROOTS@[103] == 1645);
    assert((939int * 1645int) % 3329 == 3328);
    assert(zeta_pairs_hold(64, 24));
    assert(K_NTT_ROOTS@[89] == 2308 && K_NTT_ROOTS@[102] == 2090);
    assert((2308int * 2090int) % 3329 == 3328);
    assert(zeta_pairs_hold(64, 25));
    assert(K_NTT_ROOTS@[90] == 2437 && K_NTT_ROOTS@[101] == 2549);
    assert((2437int * 2549int) % 3329 == 3328);
    assert(zeta_pairs_hold(64, 26));
    assert(K_NTT_ROOTS@[91] == 2388 && K_NTT_ROOTS@[100] == 375);
    assert((2388int * 375int) % 3329 == 3328);
    assert(zeta_pairs_hold(64, 27));
    assert(K_NTT_ROOTS@[92] == 733 && K_NTT_ROOTS@[99] == 3220);
    assert((733int * 3220int) % 3329 == 3328);
    assert(zeta_pairs_hold(64, 28));
    assert(K_NTT_ROOTS@[93] == 2337 && K_NTT_ROOTS@[98] == 2037);
    assert((2337int * 2037int) % 3329 == 3328);
    assert(zeta_pairs_hold(64, 29));
    assert(K_NTT_ROOTS@[94] == 268 && K_NTT_ROOTS@[97] == 2298);
    assert((268int * 2298int) % 3329 == 3328);
    assert(zeta_pairs_hold(64, 30));
    assert(K_NTT_ROOTS@[95] == 641 && K_NTT_ROOTS@[96] == 1584);
    assert((641int * 1584int) % 3329 == 3328);
    assert(zeta_pairs_hold(64, 31));
    assert(K_NTT_ROOTS@[96] == 1584 && K_NTT_ROOTS@[95] == 641);
    assert((1584int * 641int) % 3329 == 3328);
    assert(zeta_pairs_hold(64, 32));
    assert(K_NTT_ROOTS@[97] == 2298 && K_NTT_ROOTS@[94] == 268);
    assert((2298int * 268int) % 3329 == 3328);
    assert(zeta_pairs_hold(64, 33));
    assert(K_NTT_ROOTS@[98] == 2037 && K_NTT_ROOTS@[93] == 2337);
    assert((2037int * 2337int) % 3329 == 3328);
    assert(zeta_pairs_hold(64, 34));
    assert(K_NTT_ROOTS@[99] == 3220 && K_NTT_ROOTS@[92] == 733);
    assert((3220int * 733int) % 3329 == 3328);
    assert(zeta_pairs_hold(64, 35));
    assert(K_NTT_ROOTS@[100] == 375 && K_NTT_ROOTS@[91] == 2388);
    assert((375int * 2388int) % 3329 == 3328);
    assert(zeta_pairs_hold(64, 36));
    assert(K_NTT_ROOTS@[101] == 2549 && K_NTT_ROOTS@[90] == 2437);
    assert((2549int * 2437int) % 3329 == 3328);
    assert(zeta_pairs_hold(64, 37));
    assert(K_NTT_ROOTS@[102] == 2090 && K_NTT_ROOTS@[89] == 2308);
    assert((2090int * 2308int) % 3329 == 3328);
    assert(zeta_pairs_hold(64, 38));
    assert(K_NTT_ROOTS@[103] == 1645 && K_NTT_ROOTS@[88] == 939);
    assert((1645int * 939int) % 3329 == 3328);
    assert(zeta_pairs_hold(64, 39));
    assert(K_NTT_ROOTS@[104] == 1063 && K_NTT_ROOTS@[87] == 2687);
    assert((1063int * 2687int) % 3329 == 3328);
    assert(zeta_pairs_hold(64, 40));
    assert(K_NTT_ROOTS@[105] == 319 && K_NTT_ROOTS@[86] == 1461);
    assert((319int * 1461int) % 3329 == 3328);
    assert(zeta_pairs_hold(64, 41));
    assert(K_NTT_ROOTS@[106] == 2773 && K_NTT_ROOTS@[85] == 952);
    assert((2773int * 952int) % 3329 == 3328);
    assert(zeta_pairs_hold(64, 42));
    assert(K_NTT_ROOTS@[107] == 757 && K_NTT_ROOTS@[84] == 1847);
    assert((757int * 1847int) % 3329 == 3328);
    assert(zeta_pairs_hold(64, 43));
    assert(K_NTT_ROOTS@[108] == 2099 && K_NTT_ROOTS@[83] == 1789);
    assert((2099int * 1789int) % 3329 == 3328);
    assert(zeta_pairs_hold(64, 44));
    assert(K_NTT_ROOTS@[109] == 561 && K_NTT_ROOTS@[82] == 2789);
    assert((561int * 2789int) % 3329 == 3328);
    assert(zeta_pairs_hold(64, 45));
    assert(K_NTT_ROOTS@[110] == 2466 && K_NTT_ROOTS@[81] == 1651);
    assert((2466int * 1651int) % 3329 == 3328);
    assert(zeta_pairs_hold(64, 46));
    assert(K_NTT_ROOTS@[111] == 2594 && K_NTT_ROOTS@[80] == 1703);
    assert((2594int * 1703int) % 3329 == 3328);
    assert(zeta_pairs_hold(64, 47));
    assert(K_NTT_ROOTS@[112] == 2804 && K_NTT_ROOTS@[79] == 3050);
    assert((2804int * 3050int) % 3329 == 3328);
    assert(zeta_pairs_hold(64, 48));
    assert(K_NTT_ROOTS@[113] == 1092 && K_NTT_ROOTS@[78] == 3015);
    assert((1092int * 3015int) % 3329 == 3328);
    assert(zeta_pairs_hold(64, 49));
    assert(K_NTT_ROOTS@[114] == 403 && K_NTT_ROOTS@[77] == 2156);
    assert((403int * 2156int) % 3329 == 3328);
    assert(zeta_pairs_hold(64, 50));
    assert(K_NTT_ROOTS@[115] == 1026 && K_NTT_ROOTS@[76] == 756);
    assert((1026int * 756int) % 3329 == 3328);
    assert(zeta_pairs_hold(64, 51));
    assert(K_NTT_ROOTS@[116] == 1143 && K_NTT_ROOTS@[75] == 233);
    assert((1143int * 233int) % 3329 == 3328);
    assert(zeta_pairs_hold(64, 52));
    assert(K_NTT_ROOTS@[117] == 2150 && K_NTT_ROOTS@[74] == 3281);
    assert((2150int * 3281int) % 3329 == 3328);
    assert(zeta_pairs_hold(64, 53));
    assert(K_NTT_ROOTS@[118] == 2775 && K_NTT_ROOTS@[73] == 2662);
    assert((2775int * 2662int) % 3329 == 3328);
    assert(zeta_pairs_hold(64, 54));
    assert(K_NTT_ROOTS@[119] == 886 && K_NTT_ROOTS@[72] == 1409);
    assert((886int * 1409int) % 3329 == 3328);
    assert(zeta_pairs_hold(64, 55));
    assert(K_NTT_ROOTS@[120] == 1722 && K_NTT_ROOTS@[71] == 1100);
    assert((1722int * 1100int) % 3329 == 3328);
    assert(zeta_pairs_hold(64, 56));
    assert(K_NTT_ROOTS@[121] == 1212 && K_NTT_ROOTS@[70] == 2288);
    assert((1212int * 2288int) % 3329 == 3328);
    assert(zeta_pairs_hold(64, 57));
    assert(K_NTT_ROOTS@[122] == 1874 && K_NTT_ROOTS@[69] == 723);
    assert((1874int * 723int) % 3329 == 3328);
    assert(zeta_pairs_hold(64, 58));
    assert(K_NTT_ROOTS@[123] == 1029 && K_NTT_ROOTS@[68] == 1637);
    assert((1029int * 1637int) % 3329 == 3328);
    assert(zeta_pairs_hold(64, 59));
    assert(K_NTT_ROOTS@[124] == 2110 && K_NTT_ROOTS@[67] == 2649);
    assert((2110int * 2649int) % 3329 == 3328);
    assert(zeta_pairs_hold(64, 60));
    assert(K_NTT_ROOTS@[125] == 2935 && K_NTT_ROOTS@[66] == 583);
    assert((2935int * 583int) % 3329 == 3328);
    assert(zeta_pairs_hold(64, 61));
    assert(K_NTT_ROOTS@[126] == 885 && K_NTT_ROOTS@[65] == 2761);
    assert((885int * 2761int) % 3329 == 3328);
    assert(zeta_pairs_hold(64, 62));
    assert(K_NTT_ROOTS@[127] == 2154 && K_NTT_ROOTS@[64] == 17);
    assert((2154int * 17int) % 3329 == 3328);
    assert(zeta_pairs_hold(64, 63));
}

/// In every layer, the forward and inverse twiddle factors of a block multiply
/// to -1 modulo q.
proof fn lemma_zeta_pair(len: int, b: int)
    requires
        len == 2 || len == 4 || len == 8 || len == 16 || len == 32 || len == 64 || len == 128,
        0 <= b < 128int / len,
    ensures
        (zeta(128int / len + b) * zeta(256int / len - 1 - b)) % q() == q() - 1,
{
    let m0 = 128int / len;
    assert(256int / len == 2 * m0);
    if m0 == 1 {
        lemma_zeta_pairs_1();
    } else if m0 == 2 {
        lemma_zeta_pairs_2();
    } else if m0 == 4 {
        lemma_zeta_pairs_4();
    } else if m0 == 8 {
        lemma_zeta_pairs_8();
    } else if m0 == 16 {
        lemma_zeta_pairs_16();
    } else if m0 == 32 {
        lemma_zeta_pairs_32();
    } else {
        lemma_zeta_pairs_64();
    }
    lemma_zeta_pairs_hold_below(m0, m0 - 1, b);
}

/// Multiply each coefficient by c, modulo q.
pub open spec fn scale(g: Seq<int>, c: int) -> Seq<int> {
    Seq::new(256, |j: int| (c * g[j]) % q())
}

/// The sum of the two outputs of a forward butterfly is twice its first input.
proof fn lemma_butterfly_sum(f: int, p: int)
    ensures
        ((f + p % q()) % q() + (f - p % q()) % q()) % q() == (2 * f) % q(),
{
    lemma_add_mod_noop(f + p % q(), f - p % q(), q());
}

/// The difference of the two outputs of a forward butterfly, times the paired
/// twiddle factor, is twice its second input.
proof fn lemma_butterfly_difference(f0: int, x: int, z: int, z2: int)
    requires
        (z * z2) % q() == q() - 1,
    ensures
        (z2 * (((f0 - (z * x) % q()) % q() - (f0 + (z * x) % q()) % q()) % q())) % q() == (2 * x)
            % q(),
{
    let pm = (z * x) % q();
    lemma_sub_mod_noop(f0 - pm, f0 + pm, q());
    assert((f0 - pm) - (f0 + pm) == -2 * pm);
    lemma_mul_mod_noop_right(z2, -2 * pm, q());
    assert(z2 * (-2 * pm) == -2 * (z2 * pm)) by (nonlinear_arith);
    lemma_mul_mod_noop_right(-2, z2 * pm, q());
    lemma_mul_mod_noop_right(z2, z * x, q());
    assert(z2 * (z * x) == (z * z2) * x) by (nonlinear_arith);
    lemma_mul_mod_noop_left(z * z2, x, q());
    assert((q() - 1) * x == q() * x + (-x)) by (nonlinear_arith);
    lemma_mod_multiples_vanish(x, -x, q());
    lemma_mul_mod_noop_right(-2, -x, q());
}

/// The inverse butterfly commutes with multiplying by c, modulo q (sum side).
proof fn lemma_scaled_sum(a: int, b: int, c: int)
    ensures
        ((c * a) % q() + (c * b) % q()) % q() == (c * ((a + b) % q())) % q(),
{
    lemma_add_mod_noop(c * a, c * b, q());
    assert(c * a + c * b == c * (a + b)) by (nonlinear_arith);
    lemma_mul_mod_noop_right(c, a + b, q());
}

/// The inverse butterfly commutes with multiplying by c, modulo q (difference
/// side).
proof fn lemma_scaled_difference(a: int, b: int, c: int, z: int)
    ensures
        (z * (((c * a) % q() - (c * b) % q()) % q())) % q() == (c * ((z * ((a - b) % q()))
            % q())) % q(),
{
    lemma_sub_mod_noop(c * a, c * b, q());
    assert(c * a - c * b == c * (a - b)) by (nonlinear_arith);
    lemma_mul_mod_noop_right(z, c * (a - b), q());
    lemma_mul_mod_noop_right(z, a - b, q());
    lemma_mul_mod_noop_right(c, z * ((a - b) % q()), q());
    lemma_mul_mod_noop_right(c, z * (a - b), q());
    assert(z * (c * (a - b)) == c * (z * (a - b))) by (nonlinear_arith);
    lemma_mul_mod_noop_right(c, z * (a - b), q());
}

/// Inverse layer len undoes forward layer len, up to a factor 2.
proof fn lemma_layer_inverse(f: Seq<int>, len: int)
    requires
        len == 2 || len == 4 || len == 8 || len == 16 || len == 32 || len == 64 || len == 128,
    ensures
        inv_ntt_layer(ntt_layer(f, len), len) == scale(f, 2),
{
    let g = ntt_layer(f, len);
    assert forall|j: int| 0 <= j < 256 implies #[trigger] inv_ntt_layer(g, len)[j] == scale(f, 2)[j] by {
        let b = j / (2 * len);
        lemma_fundamental_div_mod(j, 2 * len);
        assert(0 <= b < 128int / len) by (nonlinear_arith)
            requires
                j == (2 * len) * b + j % (2 * len),
                0 <= j % (2 * len) < 2 * len,
                0 <= j < 256,
                len == 2 || len == 4 || len == 8 || len == 16 || len == 32 || len == 64 || len == 128,
        ;
        assert(b * (2 * len) <= j < b * (2 * len) + 2 * len) by (nonlinear_arith)
            requires
                j == (2 * len) * b + j % (2 * len),
                0 <= j % (2 * len) < 2 * len,
        ;
        lemma_zeta_pair(len, b);
        let z = zeta(128int / len + b);
        let z2 = zeta(256int / len - 1 - b);
        lemma_block_index(j, b, len);
        if j % (2 * len) < len {
            lemma_block_index(j + len, b, len);
            lemma_butterfly_sum(f[j], z * f[j + len]);
        } else {
            lemma_block_index(j - len, b, len);
            lemma_butterfly_difference(f[j - len], f[j], z, z2);
            assert((z * z2) % q() == q() - 1) by {
                assert(z * z2 == z2 * z) by (nonlinear_arith);
            }
        }
    }
    assert(inv_ntt_layer(g, len) =~= scale(f, 2));
}

/// An inverse layer commutes with multiplying every coefficient by c.
proof fn lemma_inverse_layer_scale(g: Seq<int>, c: int, len: int)
    requires
        len == 2 || len == 4 || len == 8 || len == 16 || len == 32 || len == 64 || len == 128,
    ensures
        inv_ntt_layer(scale(g, c), len) == scale(inv_ntt_layer(g, len), c),
{
    let h = scale(g, c);
    assert forall|j: int| 0 <= j < 256 implies #[trigger] inv_ntt_layer(h, len)[j] == scale(
        inv_ntt_layer(g, len),
        c,
    )[j] by {
        let b = j / (2 * len);
        lemma_fundamental_div_mod(j, 2 * len);
        assert(b * (2 * len) <= j < b * (2 * len) + 2 * len) by (nonlinear_arith)
            requires
                j == (2 * len) * b + j % (2 * len),
                0 <= j % (2 * len) < 2 * len,
        ;
        assert(0 <= b) by (nonlinear_arith)
            requires
                j == (2 * len) * b + j % (2 * len),
                0 <= j % (2 * len) < 2 * len,
                0 <= j,
                len > 0,
        ;
        lemma_block_index(j, b, len);
        if j % (2 * len) < len {
            assert(j + len < 256) by (nonlinear_arith)
                requires
                    b * (2 * len) <= j < b * (2 * len) + len,
                    j < 256,
                    len == 2 || len == 4 || len == 8 || len == 16 || len == 32 || len == 64 || len
                        == 128,
            ;
            lemma_scaled_sum(g[j], g[j + len], c);
        } else {
            let z = zeta(256int / len - 1 - b);
            lemma_scaled_difference(g[j], g[j - len], c, z);
        }
    }
    assert(inv_ntt_layer(h, len) =~= scale(inv_ntt_layer(g, len), c));
}

/// Forward layer 6 - m and inverse layer m have the same half-width.
proof fn lemma_layer_lengths(m: nat)
    requires
        m < 7,
    ensures
        forward_len((6 - m) as nat) == inverse_len(m),
        inverse_len(m) == 2 || inverse_len(m) == 4 || inverse_len(m) == 8 || inverse_len(m) == 16
            || inverse_len(m) == 32 || inverse_len(m) == 64 || inverse_len(m) == 128,
        inverse_len(m) == pow2(m + 1),
{
    reveal_with_fuel(forward_len, 8);
    reveal_with_fuel(inverse_len, 8);
    lemma2_to64();
}

/// After m inverse layers, the forward transform is undone down to layer 7 - m,
/// up to a factor 2^m.
proof fn lemma_inverse_layers(f: Seq<int>, m: nat)
    requires
        1 <= m <= 7,
    ensures
        inv_ntt_layers(ntt_layers(f, 7), m) == scale(ntt_layers(f, (7 - m) as nat), pow2(m) as int),
    decreases m,
{
    let big_f = ntt_layers(f, 7);
    let l = (m - 1) as nat;
    lemma_layer_lengths(l);
    let len = inverse_len(l);
    let h = ntt_layers(f, (6 - l) as nat);
    assert(ntt_layers(f, (7 - l) as nat) == ntt_layer(h, len));
    lemma_layer_inverse(h, len);
    lemma2_to64();
    if l == 0 {
        reveal_with_fuel(inv_ntt_layers, 2);
        assert(inv_ntt_layers(big_f, 0) == big_f);
        assert(inv_ntt_layers(big_f, 1) == inv_ntt_layer(big_f, 2));
        assert(pow2(1) == 2);
    } else {
        lemma_inverse_layers(f, l);
        lemma_inverse_layer_scale(ntt_layer(h, len), pow2(l) as int, len);
        vstd::arithmetic::power2::lemma_pow2_unfold(m);
        assert forall|j: int| 0 <= j < 256 implies #[trigger] scale(scale(h, 2), pow2(l) as int)[j]
            == scale(h, pow2(m) as int)[j] by {
            lemma_mul_mod_noop_right(pow2(l) as int, 2 * h[j], q());
            assert(pow2(l) as int * (2 * h[j]) == pow2(m) as int * h[j]) by (nonlinear_arith)
                requires pow2(m) == 2 * pow2(l);
        }
        assert(scale(scale(h, 2), pow2(l) as int) =~= scale(h, pow2(m) as int));
    }
}

/// NTT^-1(NTT(f)) = f for every polynomial with coefficients in [0, q).
pub proof fn lemma_ntt_round_trip(f: Seq<int>)
    requires
        f.len() == 256,
        forall|j: int| 0 <= j < 256 ==> 0 <= #[trigger] f[j] < q(),
    ensures
        inv_ntt_spec(ntt_spec(f)) == f,
{
    lemma_inverse_layers(f, 7);
    lemma2_to64();
    assert(ntt_layers(f, 0) == f);
    assert forall|j: int| 0 <= j < 256 implies #[trigger] inv_ntt_spec(ntt_spec(f))[j] == f[j] by {
        lemma_mul_mod_noop_left(128 * f[j], 3303, q());
        assert(128 * f[j] * 3303 == q() * (127 * f[j]) + f[j]) by (nonlinear_arith);
        lemma_mod_multiples_vanish(127 * f[j], f[j], q());
        lemma_small_mod(f[j] as nat, 3329);
    }
    assert(inv_ntt_spec(ntt_spec(f)) =~= f);
}

/// Apply forward layer `len` in place.
fn ntt_layer_in_place(a: &mut [F; 256], len: usize)
    requires
        len == 2 || len == 4 || len == 8 || len == 16 || len == 32 || len == 64 || len == 128,
        all_reduced(*old(a)),
    ensures
        all_reduced(*final(a)),
        coef_ints(*final(a)) == ntt_layer(coef_ints(*old(a)), len as int),
{
    let ghost f = coef_ints(*a);
    let ghost g = ntt_layer(f, len as int);
    let mut start: usize = 0;
    let mut blk: usize = 0;
    let mut k: usize = 128 / len;
    while start < 256
        invariant
            len == 2 || len == 4 || len == 8 || len == 16 || len == 32 || len == 64 || len == 128,
            f == coef_ints(*old(a)),
            g == ntt_layer(f, len as int),
            start == blk * (2 * len),
            start <= 256,
            k == 128int / len as int + blk,
            all_reduced(*a),
            forall|i: int| 0 <= i < start ==> #[trigger] a@[i].0 == g[i],
            forall|i: int| start <= i < 256 ==> #[trigger] a@[i].0 == f[i],
        decreases 256 - start,
    {
        proof {
            assert(blk < 128int / len as int && start + 2 * len <= 256) by (nonlinear_arith)
                requires
                    start == blk * (2 * len),
                    start < 256,
                    len == 2 || len == 4 || len == 8 || len == 16 || len == 32 || len == 64
                        || len == 128,
            ;
        }
        let z = zeta_at(k);
        let mut j: usize = start;
        while j < start + len
            invariant
                len == 2 || len == 4 || len == 8 || len == 16 || len == 32 || len == 64 || len
                    == 128,
                f == coef_ints(*old(a)),
                g == ntt_layer(f, len as int),
                start == blk * (2 * len),
                start + 2 * len <= 256,
                start <= j <= start + len,
                z.0 == zeta(128int / len as int + blk),
                z.0 < q(),
                all_reduced(*a),
                forall|i: int| 0 <= i < start ==> #[trigger] a@[i].0 == g[i],
                forall|i: int| start <= i < j ==> #[trigger] a@[i].0 == g[i],
                forall|i: int| start + len <= i < j + len ==> #[trigger] a@[i].0 == g[i],
                forall|i: int| j <= i < start + len ==> #[trigger] a@[i].0 == f[i],
                forall|i: int| j + len <= i < 256 ==> #[trigger] a@[i].0 == f[i],
            decreases start + len - j,
        {
            let t = z.mul(a[j + len]);
            let x = a[j];
            a[j + len] = x.sub(t);
            a[j] = x.add(t);
            proof {
                lemma_block_index(j as int, blk as int, len as int);
                lemma_block_index((j + len) as int, blk as int, len as int);
            }
            j = j + 1;
        }
        proof {
            assert((blk + 1) * (2 * len) == blk * (2 * len) + 2 * len) by (nonlinear_arith);
        }
        start = start + 2 * len;
        blk = blk + 1;
        k = k + 1;
    }
    proof {
        assert(coef_ints(*a) =~= g);
    }
}

/// Apply inverse layer `len` in place.
fn inv_ntt_layer_in_place(a: &mut [F; 256], len: usize)
    requires
        len == 2 || len == 4 || len == 8 || len == 16 || len == 32 || len == 64 || len == 128,
        all_reduced(*old(a)),
    ensures
        all_reduced(*final(a)),
        coef_ints(*final(a)) == inv_ntt_layer(coef_ints(*old(a)), len as int),
{
    let ghost f = coef_ints(*a);
    let ghost g = inv_ntt_layer(f, len as int);
    let mut start: usize = 0;
    let mut blk: usize = 0;
    assert(256usize / len >= 2);
    let mut k: usize = 256 / len - 1;
    while start < 256
        invariant
            len == 2 || len == 4 || len == 8 || len == 16 || len == 32 || len == 64 || len == 128,
            f == coef_ints(*old(a)),
            g == inv_ntt_layer(f, len as int),
            start == blk * (2 * len),
            start <= 256,
            k == 256int / len as int - 1 - blk,
            all_reduced(*a),
            forall|i: int| 0 <= i < start ==> #[trigger] a@[i].0 == g[i],
            forall|i: int| start <= i < 256 ==> #[trigger] a@[i].0 == f[i],
        decreases 256 - start,
    {
        proof {
            assert(blk < 128int / len as int && start + 2 * len <= 256 && 256int / len as int - 1 - blk >= 1) by (nonlinear_arith)
                requires
                    start == blk * (2 * len),
                    start < 256,
                    len == 2 || len == 4 || len == 8 || len == 16 || len == 32 || len == 64
                        || len == 128,
            ;
        }
        let z = zeta_at(k);
        let mut j: usize = start;
        while j < start + len
            invariant
                len == 2 || len == 4 || len == 8 || len == 16 || len == 32 || len == 64 || len
                    == 128,
                f == coef_ints(*old(a)),
                g == inv_ntt_layer(f, len as int),
                start == blk * (2 * len),
                start + 2 * len <= 256,
                start <= j <= start + len,
                z.0 == zeta(256int / len as int - 1 - blk),
                z.0 < q(),
                all_reduced(*a),
                forall|i: int| 0 <= i < start ==> #[trigger] a@[i].0 == g[i],
                forall|i: int| start <= i < j ==> #[trigger] a@[i].0 == g[i],
                forall|i: int| start + len <= i < j + len ==> #[trigger] a@[i].0 == g[i],
                forall|i: int| j <= i < start + len ==> #[trigger] a@[i].0 == f[i],
                forall|i: int| j + len <= i < 256 ==> #[trigger] a@[i].0 == f[i],
            decreases start + len - j,
        {
            let x = a[j];
            let y = a[j + len];
            a[j] = x.add(y);
            a[j + len] = z.mul(y.sub(x));
            proof {
                lemma_block_index(j as int, blk as int, len as int);
                lemma_block_index((j + len) as int, blk as int, len as int);
            }
            j = j + 1;
        }
        proof {
            assert((blk + 1) * (2 * len) == blk * (2 * len) + 2 * len) by (nonlinear_arith);
        }
        start = start + 2 * len;
        blk = blk + 1;
        if k > 0 {
            k = k - 1;
        }
    }
    proof {
        assert(coef_ints(*a) =~= g);
    }
}


/// NTT(f): the forward layers with half-widths 128, 64, ..., 2, in place.
pub fn ntt_in_place(a: &mut [F; 256])
    requires
        all_reduced(*old(a)),
    ensures
        all_reduced(*final(a)),
        coef_ints(*final(a)) == ntt_spec(coef_ints(*old(a))),
{
    let ghost f = coef_ints(*a);
    let mut len: usize = 128;
    let mut m: usize = 0;
    while m < 7
        invariant
            m <= 7,
            len == forward_len(m as nat),
            m < 7 ==> (len == 2 || len == 4 || len == 8 || len == 16 || len == 32 || len == 64
                || len == 128),
            f == coef_ints(*old(a)),
            all_reduced(*a),
            coef_ints(*a) == ntt_layers(f, m as nat),
        decreases 7 - m,
    {
        ntt_layer_in_place(a, len);
        len = len / 2;
        m = m + 1;
        proof {
            reveal_with_fuel(forward_len, 8);
        }
    }
}

/// NTT^-1(f): the inverse layers with half-widths 2, 4, ..., 128, then a
/// factor 3303 = 128^-1 mod q, in place.
pub fn inv_ntt_in_place(a: &mut [F; 256])
    requires
        all_reduced(*old(a)),
    ensures
        all_reduced(*final(a)),
        coef_ints(*final(a)) == inv_ntt_spec(coef_ints(*old(a))),
{
    let ghost f = coef_ints(*a);
    let mut len: usize = 2;
    let mut m: usize = 0;
    while m < 7
        invariant
            m <= 7,
            len == inverse_len(m as nat),
            m < 7 ==> (len == 2 || len == 4 || len == 8 || len == 16 || len == 32 || len == 64
                || len == 128),
            f == coef_ints(*old(a)),
            all_reduced(*a),
            coef_ints(*a) == inv_ntt_layers(f, m as nat),
        decreases 7 - m,
    {
        inv_ntt_layer_in_place(a, len);
        len = len * 2;
        m = m + 1;
        proof {
            reveal_with_fuel(inverse_len, 8);
        }
    }
    let ghost h = coef_ints(*a);
    let mut i: usize = 0;
    while i < 256
        invariant
            i <= 256,
            h == inv_ntt_layers(f, 7),
            all_reduced(*a),
            forall|k: int| 0 <= k < i ==> #[trigger] a@[k].0 == (h[k] * 3303) % q(),
            forall|k: int| i <= k < 256 ==> #[trigger] a@[k].0 == h[k],
        decreases 256 - i,
    {
        a[i] = a[i].mul_u16(N_INV_128);
        i = i + 1;
    }
    proof {
        assert(coef_ints(*a) =~= inv_ntt_spec(f));
    }
}
} // verus!
