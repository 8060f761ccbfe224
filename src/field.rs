//! Arithmetic in GF(2^8), the field that the AES column mixing works in.
use vstd::prelude::*;

verus! {

/// Doubling: multiplication by the polynomial `x`, reduced modulo the AES
/// polynomial `x^8 + x^4 + x^3 + x + 1`.
pub open spec fn xtime(x: u8) -> u8 {
    if x & 0x80 == 0 {
        x << 1
    } else {
        (x << 1) ^ 0x1b
    }
}

/// The field product of `x` and `y`, following the binary expansion of `y`:
/// `x * y = (y odd ? x : 0) + (2x) * (y / 2)`.
pub open spec fn gf_mul(x: u8, y: nat) -> u8
    decreases y,
{
    if y == 0 {
        0
    } else if y % 2 == 1 {
        x ^ gf_mul(xtime(x), y / 2)
    } else {
        gf_mul(xtime(x), y / 2)
    }
}

/// Doubles `x` in GF(2^8).
pub fn x_time(x: u8) -> (r: u8)
    ensures
        r == xtime(x),
{
    let shifted = x << 1;
    let reduction = (x >> 7) & 1;
    assert(reduction <= 1) by (bit_vector)
        requires
            reduction == (x >> 7) & 1,
    ;
    let r = shifted ^ (reduction * 0x1b);
    assert(r == xtime(x)) by (bit_vector)
        requires
            shifted == x << 1,
            reduction == (x >> 7) & 1,
            r == shifted ^ ((reduction * 0x1b) as u8),
    ;
    r
}

/// Multiplies `x` by `y` in GF(2^8).
pub fn multiply(x: u8, y: u8) -> (r: u8)
    ensures
        r == gf_mul(x, y as nat),
{
    let mut product: u8 = 0;
    let mut a: u8 = x;
    let mut b: u8 = y;
    assert(0u8 ^ gf_mul(x, y as nat) == gf_mul(x, y as nat)) by {
        lemma_xor_zero_left(gf_mul(x, y as nat));
    }
    while b > 0
        invariant
            product ^ gf_mul(a, b as nat) == gf_mul(x, y as nat),
        decreases b,
    {
        let doubled = x_time(a);
        let half = b >> 1;
        assert(half == b / 2 && (b & 1 == 1) == (b % 2 == 1)) by (bit_vector)
            requires
                half == b >> 1,
        ;
        let rest = Ghost(gf_mul(doubled, half as nat));
        if b & 1 == 1 {
            let p = product ^ a;
            assert(p ^ rest@ == product ^ (a ^ rest@)) by (bit_vector)
                requires
                    p == product ^ a,
            ;
            product = p;
        }
        a = doubled;
        b = half;
    }
    assert(product ^ 0u8 == product) by (bit_vector);
    product
}

/// One byte of a mixed column: `2a + 3b + c + d`.
pub open spec fn mix_byte(a: u8, b: u8, c: u8, d: u8) -> u8 {
    gf_mul(a, 2) ^ gf_mul(b, 3) ^ c ^ d
}

/// One byte of an unmixed column: `14a + 11b + 13c + 9d`.
pub open spec fn inv_mix_byte(a: u8, b: u8, c: u8, d: u8) -> u8 {
    gf_mul(a, 14) ^ gf_mul(b, 11) ^ gf_mul(c, 13) ^ gf_mul(d, 9)
}

spec fn times3(x: u8) -> u8 {
    xtime(x) ^ x
}

spec fn times9(x: u8) -> u8 {
    xtime(xtime(xtime(x))) ^ x
}

spec fn times11(x: u8) -> u8 {
    xtime(xtime(xtime(x))) ^ xtime(x) ^ x
}

spec fn times13(x: u8) -> u8 {
    xtime(xtime(xtime(x))) ^ xtime(xtime(x)) ^ x
}

spec fn times14(x: u8) -> u8 {
    xtime(xtime(xtime(x))) ^ xtime(xtime(x)) ^ xtime(x)
}

/// The products by the column-mixing constants, written with doublings.
proof fn lemma_gf_mul_constants(x: u8)
    ensures
        gf_mul(x, 1) == x,
        gf_mul(x, 2) == xtime(x),
        gf_mul(x, 3) == times3(x),
        gf_mul(x, 9) == times9(x),
        gf_mul(x, 11) == times11(x),
        gf_mul(x, 13) == times13(x),
        gf_mul(x, 14) == times14(x),
{
    reveal_with_fuel(gf_mul, 5);
    let x1 = xtime(x);
    let x2 = xtime(x1);
    let x3 = xtime(x2);
    let x4 = xtime(x3);
    assert(gf_mul(x4, 0) == 0);
    assert(x ^ 0u8 == x && x1 ^ 0u8 == x1 && x1 ^ (x ^ 0u8) == x1 ^ x && x ^ (x1 ^ 0u8) == x1 ^ x)
        by (bit_vector);
    assert(x ^ (x3 ^ 0u8) == x3 ^ x && x ^ (x1 ^ (x3 ^ 0u8)) == x3 ^ x1 ^ x && x ^ (x2 ^ (x3
        ^ 0u8)) == x3 ^ x2 ^ x && x1 ^ (x2 ^ (x3 ^ 0u8)) == x3 ^ x2 ^ x1) by (bit_vector);
}

/// Each product by a constant distributes over addition.
proof fn lemma_times_linear(p: u8, q: u8)
    ensures
        xtime(p ^ q) == xtime(p) ^ xtime(q),
        times3(p ^ q) == times3(p) ^ times3(q),
        times9(p ^ q) == times9(p) ^ times9(q),
        times11(p ^ q) == times11(p) ^ times11(q),
        times13(p ^ q) == times13(p) ^ times13(q),
        times14(p ^ q) == times14(p) ^ times14(q),
{
    assert(xtime(p ^ q) == xtime(p) ^ xtime(q)) by (bit_vector);
    assert(times3(p ^ q) == times3(p) ^ times3(q)) by (bit_vector);
    assert(times9(p ^ q) == times9(p) ^ times9(q)) by (bit_vector);
    assert(times11(p ^ q) == times11(p) ^ times11(q)) by (bit_vector);
    assert(times13(p ^ q) == times13(p) ^ times13(q)) by (bit_vector);
    assert(times14(p ^ q) == times14(p) ^ times14(q)) by (bit_vector);
}

/// Unmixing a mixed column gives back its first byte; rotating the
/// arguments gives the other three.
pub proof fn lemma_mix_column_inverse(a: u8, b: u8, c: u8, d: u8)
    ensures
        inv_mix_byte(
            mix_byte(a, b, c, d),
            mix_byte(b, c, d, a),
            mix_byte(c, d, a, b),
            mix_byte(d, a, b, c),
        ) == a,
{
    lemma_gf_mul_constants(a);
    lemma_gf_mul_constants(b);
    lemma_gf_mul_constants(c);
    lemma_gf_mul_constants(d);
    let (a2, b2, c2, d2) = (xtime(a), xtime(b), xtime(c), xtime(d));
    let (a3, b3, c3, d3) = (times3(a), times3(b), times3(c), times3(d));
    let o0 = a2 ^ b3 ^ c ^ d;
    let o1 = b2 ^ c3 ^ d ^ a;
    let o2 = c2 ^ d3 ^ a ^ b;
    let o3 = d2 ^ a3 ^ b ^ c;
    lemma_gf_mul_constants(o0);
    lemma_gf_mul_constants(o1);
    lemma_gf_mul_constants(o2);
    lemma_gf_mul_constants(o3);
    lemma_times_linear(a2 ^ b3 ^ c, d);
    lemma_times_linear(a2 ^ b3, c);
    lemma_times_linear(a2, b3);
    lemma_times_linear(b2 ^ c3 ^ d, a);
    lemma_times_linear(b2 ^ c3, d);
    lemma_times_linear(b2, c3);
    lemma_times_linear(c2 ^ d3 ^ a, b);
    lemma_times_linear(c2 ^ d3, a);
    lemma_times_linear(c2, d3);
    lemma_times_linear(d2 ^ a3 ^ b, c);
    lemma_times_linear(d2 ^ a3, b);
    lemma_times_linear(d2, a3);
    assert(times14(xtime(a)) ^ times11(a) ^ times13(a) ^ times9(times3(a)) == a) by (bit_vector);
    assert(times14(times3(b)) ^ times11(xtime(b)) ^ times13(b) ^ times9(b) == 0) by (bit_vector);
    assert(times14(c) ^ times11(times3(c)) ^ times13(xtime(c)) ^ times9(c) == 0) by (bit_vector);
    assert(times14(d) ^ times11(d) ^ times13(times3(d)) ^ times9(xtime(d)) == 0) by (bit_vector);
    let (e0, e1, e2, e3) = (times14(a2), times14(b3), times14(c), times14(d));
    let (f0, f1, f2, f3) = (times11(b2), times11(c3), times11(d), times11(a));
    let (g0, g1, g2, g3) = (times13(c2), times13(d3), times13(a), times13(b));
    let (h0, h1, h2, h3) = (times9(d2), times9(a3), times9(b), times9(c));
    assert((e0 ^ e1 ^ e2 ^ e3) ^ (f0 ^ f1 ^ f2 ^ f3) ^ (g0 ^ g1 ^ g2 ^ g3) ^ (h0 ^ h1 ^ h2 ^ h3)
        == a) by (bit_vector)
        requires
            e0 ^ f3 ^ g2 ^ h1 == a,
            e1 ^ f0 ^ g3 ^ h2 == 0,
            e2 ^ f1 ^ g0 ^ h3 == 0,
            e3 ^ f2 ^ g1 ^ h0 == 0,
    ;
}

/// The mixed byte as the doubling shortcut computes it:
/// `2a + 3b + c + d = a + 2(a + b) + (a + b + c + d)`.
pub proof fn lemma_mix_byte_by_doubling(a: u8, b: u8, c: u8, d: u8)
    ensures
        mix_byte(a, b, c, d) == a ^ xtime(a ^ b) ^ (a ^ b ^ c ^ d),
{
    lemma_gf_mul_constants(a);
    lemma_gf_mul_constants(b);
    lemma_times_linear(a, b);
    let (xa, xb, xab) = (xtime(a), xtime(b), xtime(a ^ b));
    assert(a ^ xab ^ (a ^ b ^ c ^ d) == xa ^ (xb ^ b) ^ c ^ d) by (bit_vector)
        requires
            xab == xa ^ xb,
    ;
}

proof fn lemma_xor_zero_left(v: u8)
    ensures
        0u8 ^ v == v,
{
    assert(0u8 ^ v == v) by (bit_vector);
}

} // verus!
