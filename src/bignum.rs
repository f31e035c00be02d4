//! Arbitrary-precision unsigned integers held as big-endian bytes.
//!
//! Every integer in the protocol travels as big-endian bytes, so the library
//! keeps them in that form and reads them through `be_value`. The arithmetic
//! itself is done by `num_bigint`; the Euclidean algorithms on top of it are
//! this library's own and are verified here.

use num_bigint::BigUint;
use vstd::arithmetic::div_mod::*;
use vstd::arithmetic::mul::*;
use vstd::arithmetic::power::{lemma_pow_multiplies, pow};
use vstd::arithmetic::power2::{lemma2_to64, lemma_pow2};
use vstd::prelude::*;
use vstd::slice::slice_to_vec;

verus! {

/// The natural number that big-endian bytes `s` stand for.
pub open spec fn be_value(s: Seq<u8>) -> nat
    decreases s.len(),
{
    if s.len() == 0 {
        0
    } else {
        be_value(s.drop_last()) * 256 + s.last() as nat
    }
}

/// An integer of `k` big-endian bytes lies below `256^k`.
pub proof fn lemma_be_value_bound(s: Seq<u8>)
    ensures
        be_value(s) < pow(256, s.len()),
    decreases s.len(),
{
    reveal(pow);
    if s.len() > 0 {
        lemma_be_value_bound(s.drop_last());
        let p = pow(256, (s.len() - 1) as nat);
        let v = be_value(s.drop_last()) as int;
        assert(v * 256 + 255 < p * 256) by (nonlinear_arith)
            requires
                v < p,
        ;
    }
}

/// A 32-byte integer lies below `2^256`.
pub proof fn lemma_32_bytes_below_2_256(s: Seq<u8>)
    requires
        s.len() == 32,
    ensures
        be_value(s) < pow(2, 256),
{
    lemma_be_value_bound(s);
    lemma2_to64();
    lemma_pow2(8);
    lemma_pow_multiplies(2, 8, 32);
}

/// Changing byte `k` of `s` to `b` changes its value by
/// `(b - s[k]) * 256^(len - 1 - k)`.
pub proof fn lemma_be_value_update(s: Seq<u8>, k: int, b: u8)
    requires
        0 <= k < s.len(),
    ensures
        be_value(s.update(k, b)) as int == be_value(s) as int + (b as int - s[k] as int) * pow(
            256,
            (s.len() - 1 - k) as nat,
        ),
    decreases s.len(),
{
    reveal(pow);
    let t = s.update(k, b);
    assert(be_value(t) == be_value(t.drop_last()) * 256 + t.last() as nat);
    assert(be_value(s) == be_value(s.drop_last()) * 256 + s.last() as nat);
    if k == s.len() - 1 {
        assert(t.drop_last() =~= s.drop_last());
    } else {
        assert(t.drop_last() =~= s.drop_last().update(k, b));
        lemma_be_value_update(s.drop_last(), k, b);
        let p = pow(256, (s.len() - 2 - k) as nat);
        assert(pow(256, (s.len() - 1 - k) as nat) == 256 * p);
        let c = b as int - s[k] as int;
        assert((be_value(s.drop_last()) as int + c * p) * 256 == be_value(s.drop_last()) as int * 256 + c
            * (256 * p)) by (nonlinear_arith);
    }
}

/// An odd number that divides `2 * y` divides `y`.
proof fn lemma_odd_divides_half(n: int, y: int)
    requires
        n > 0,
        n % 2 == 1,
        (2 * y) % n == 0,
    ensures
        y % n == 0,
{
    lemma_fundamental_div_mod(2 * y, n);
    let q = (2 * y) / n;
    assert(2 * y == n * q);
    lemma_fundamental_div_mod(q, 2);
    lemma_fundamental_div_mod(n, 2);
    let h = q / 2;
    if q % 2 == 1 {
        assert(2 * y == 2 * (n * h) + n) by (nonlinear_arith)
            requires
                2 * y == n * q,
                q == 2 * h + 1,
        ;
        assert(false) by (nonlinear_arith)
            requires
                2 * y == 2 * (n * h) + n,
                n == 2 * (n / 2) + 1,
        ;
    }
    assert(y == n * h) by (nonlinear_arith)
        requires
            2 * y == n * q,
            q == 2 * h + q % 2,
            q % 2 == 0,
    ;
    lemma_mod_multiples_basic(h, n);
    lemma_mul_is_commutative(n, h);
}

/// No odd number above 255 divides `c * 256^j` for `0 < |c| <= 255`.
pub proof fn lemma_odd_modulus_misses_byte_change(n: int, c: int, j: nat)
    requires
        n > 255,
        n % 2 == 1,
        0 < c <= 255 || -255 <= c < 0,
    ensures
        (c * pow(256, j)) % n != 0,
    decreases j,
{
    reveal(pow);
    if j == 0 {
        assert(c * pow(256, 0) == c);
        if c > 0 {
            lemma_small_mod(c as nat, n as nat);
        } else {
            lemma_fundamental_div_mod(c, n);
            lemma_mod_bound(c, n);
            assert(c % n == c + n) by {
                lemma_mod_multiples_vanish(1, c, n);
                lemma_small_mod((c + n) as nat, n as nat);
            }
        }
    } else {
        let x = c * pow(256, (j - 1) as nat);
        lemma_odd_modulus_misses_byte_change(n, c, (j - 1) as nat);
        assert(c * pow(256, j) == 256 * x) by (nonlinear_arith)
            requires
                pow(256, j) == 256 * pow(256, (j - 1) as nat),
                x == c * pow(256, (j - 1) as nat),
        ;
        if (256 * x) % n == 0 {
            assert(256 * x == 2 * (128 * x));
            lemma_odd_divides_half(n, 128 * x);
            assert(128 * x == 2 * (64 * x));
            lemma_odd_divides_half(n, 64 * x);
            assert(64 * x == 2 * (32 * x));
            lemma_odd_divides_half(n, 32 * x);
            assert(32 * x == 2 * (16 * x));
            lemma_odd_divides_half(n, 16 * x);
            assert(16 * x == 2 * (8 * x));
            lemma_odd_divides_half(n, 8 * x);
            assert(8 * x == 2 * (4 * x));
            lemma_odd_divides_half(n, 4 * x);
            assert(4 * x == 2 * (2 * x));
            lemma_odd_divides_half(n, 2 * x);
            lemma_odd_divides_half(n, x);
        }
    }
}

/// Bytes needed to write `v`: `ceil(bitlen(v) / 8)`.
pub open spec fn byte_len_of(v: nat) -> nat
    decreases v,
{
    if v == 0 {
        0
    } else {
        1 + byte_len_of(v / 256)
    }
}

/// A leading zero byte adds nothing to the value.
proof fn lemma_be_value_leading_zero(s: Seq<u8>)
    requires
        s.len() > 0,
        s[0] == 0,
    ensures
        be_value(s) == be_value(s.drop_first()),
    decreases s.len(),
{
    assert(be_value(s) == be_value(s.drop_last()) * 256 + s.last() as nat);
    if s.len() == 1 {
        assert(s.drop_last().len() == 0);
        assert(s.drop_first().len() == 0);
        assert(s.last() == s[0]);
    } else {
        lemma_be_value_leading_zero(s.drop_last());
        assert(s.drop_first().drop_last() =~= s.drop_last().drop_first());
        assert(s.drop_first().last() == s.last());
        assert(be_value(s.drop_first()) == be_value(s.drop_first().drop_last()) * 256
            + s.drop_first().last() as nat);
    }
}

/// Bytes with a non-zero first byte are as many as the value needs.
proof fn lemma_byte_len_exact(s: Seq<u8>)
    requires
        s.len() > 0,
        s[0] != 0,
    ensures
        byte_len_of(be_value(s)) == s.len(),
    decreases s.len(),
{
    let v = be_value(s);
    if s.len() == 1 {
        assert(s.drop_last().len() == 0);
        assert(v == s[0] as nat);
        assert(v / 256 == 0);
        assert(byte_len_of(0) == 0);
    } else {
        lemma_byte_len_exact(s.drop_last());
        let w = be_value(s.drop_last());
        assert(w > 0) by {
            if w == 0 {
                assert(byte_len_of(w) == 0);
            }
        }
        assert(v == w * 256 + s.last() as nat);
        assert(v / 256 == w);
        assert(v > 0);
    }
}

/// How many bytes the value of `s` needs: its length without leading zeros.
pub fn significant_len(s: &[u8]) -> (r: usize)
    ensures
        r == byte_len_of(be_value(s@)),
{
    let mut i: usize = 0;
    proof {
        assert(s@.subrange(0, s@.len() as int) =~= s@);
    }
    while i < s.len() && s[i] == 0
        invariant
            i <= s@.len(),
            be_value(s@.subrange(i as int, s@.len() as int)) == be_value(s@),
        decreases s@.len() - i,
    {
        proof {
            let t = s@.subrange(i as int, s@.len() as int);
            lemma_be_value_leading_zero(t);
            assert(t.drop_first() =~= s@.subrange(i + 1, s@.len() as int));
        }
        i = i + 1;
    }
    proof {
        let t = s@.subrange(i as int, s@.len() as int);
        if i < s.len() {
            lemma_byte_len_exact(t);
        } else {
            assert(t.len() == 0);
            assert(be_value(t) == 0);
        }
    }
    s.len() - i
}

/// The digits `0` to `9`.
pub open spec fn decimal_digits() -> Seq<char> {
    seq!['0', '1', '2', '3', '4', '5', '6', '7', '8', '9']
}

/// Text made of decimal digits only, at least one.
pub open spec fn is_decimal(s: Seq<char>) -> bool {
    s.len() > 0 && forall|i: int| 0 <= i < s.len() ==> '0' <= #[trigger] s[i] <= '9'
}

/// The number that decimal digits `s` stand for.
pub open spec fn decimal_value(s: Seq<char>) -> nat
    decreases s.len(),
{
    if s.len() == 0 {
        0
    } else {
        decimal_value(s.drop_last()) * 10 + ((s.last() as u32) - ('0' as u32)) as nat
    }
}

/// The decimal text of `x`, without leading zeros.
pub open spec fn decimal_text(x: nat) -> Seq<char>
    decreases x,
{
    if x < 10 {
        seq![decimal_digits()[x as int]]
    } else {
        decimal_text(x / 10).push(decimal_digits()[(x % 10) as int])
    }
}

/// Relies on `BigUint::parse_bytes` of `num-bigint-dig` (as re-exported by
/// `rsa`) in base ten: plain digits give their value; empty text gives nothing.
#[verifier::external_body]
pub(crate) fn parse_decimal(s: &str) -> (r: Option<Vec<u8>>)
    ensures
        is_decimal(s@) ==> r.is_some() && be_value(r.unwrap()@) == decimal_value(s@),
        s@.len() == 0 ==> r.is_none(),
{
    rsa::BigUint::parse_bytes(s.as_bytes(), 10).map(|v| v.to_bytes_be())
}

/// Relies on the `Display` of `num-bigint-dig`'s `BigUint` (as re-exported by
/// `rsa`): the decimal digits of the value, without leading zeros.
#[verifier::external_body]
pub(crate) fn to_decimal(v: &[u8]) -> (r: String)
    ensures
        r@ == decimal_text(be_value(v@)),
{
    rsa::BigUint::from_bytes_be(v).to_string()
}

/// Relies on `ToString` of `u64` (its `Display`): the decimal digits of
/// `n`, without leading zeros.
#[verifier::external_body]
pub(crate) fn u64_text(n: u64) -> (r: String)
    ensures
        r@ == decimal_text(n as nat),
{
    n.to_string()
}

/// Greatest common divisor, by Euclid's recursion.
pub open spec fn gcd_spec(a: nat, b: nat) -> nat
    decreases b,
{
    if b == 0 {
        a
    } else {
        gcd_spec(b, a % b)
    }
}

/// Relies on `num_bigint::BigUint::modpow`: `(b ^ e) mod m`; it panics on a zero modulus.
#[verifier::external_body]
pub(crate) fn modpow(b: &[u8], e: &[u8], m: &[u8]) -> (r: Vec<u8>)
    requires
        be_value(m@) > 0,
    ensures
        be_value(r@) == pow(be_value(b@) as int, be_value(e@)) % (be_value(m@) as int),
{
    let b = BigUint::from_bytes_be(b);
    let e = BigUint::from_bytes_be(e);
    let m = BigUint::from_bytes_be(m);
    b.modpow(&e, &m).to_bytes_be()
}

/// Relies on `%` of `num_bigint::BigUint`: the remainder; it panics on a zero divisor.
#[verifier::external_body]
pub(crate) fn big_rem(a: &[u8], b: &[u8]) -> (r: Vec<u8>)
    requires
        be_value(b@) > 0,
    ensures
        be_value(r@) == be_value(a@) % be_value(b@),
{
    (BigUint::from_bytes_be(a) % BigUint::from_bytes_be(b)).to_bytes_be()
}

/// Relies on `/` of `num_bigint::BigUint`: the truncated quotient; it panics on a zero divisor.
#[verifier::external_body]
pub(crate) fn big_div(a: &[u8], b: &[u8]) -> (r: Vec<u8>)
    requires
        be_value(b@) > 0,
    ensures
        be_value(r@) == be_value(a@) / be_value(b@),
{
    (BigUint::from_bytes_be(a) / BigUint::from_bytes_be(b)).to_bytes_be()
}

/// Relies on `*` of `num_bigint::BigUint`: the product.
#[verifier::external_body]
pub(crate) fn big_mul(a: &[u8], b: &[u8]) -> (r: Vec<u8>)
    ensures
        be_value(r@) == be_value(a@) * be_value(b@),
{
    (BigUint::from_bytes_be(a) * BigUint::from_bytes_be(b)).to_bytes_be()
}

/// Relies on `+` of `num_bigint::BigUint`: the sum.
#[verifier::external_body]
pub(crate) fn big_add(a: &[u8], b: &[u8]) -> (r: Vec<u8>)
    ensures
        be_value(r@) == be_value(a@) + be_value(b@),
{
    (BigUint::from_bytes_be(a) + BigUint::from_bytes_be(b)).to_bytes_be()
}

/// Relies on `-` of `num_bigint::BigUint`: the difference; it panics when it would be negative.
#[verifier::external_body]
pub(crate) fn big_sub(a: &[u8], b: &[u8]) -> (r: Vec<u8>)
    requires
        be_value(a@) >= be_value(b@),
    ensures
        be_value(r@) == be_value(a@) - be_value(b@),
{
    (BigUint::from_bytes_be(a) - BigUint::from_bytes_be(b)).to_bytes_be()
}

/// Relies on `==` of `num_bigint::BigUint`: equality of the two values.
#[verifier::external_body]
pub(crate) fn big_eq(a: &[u8], b: &[u8]) -> (r: bool)
    ensures
        r == (be_value(a@) == be_value(b@)),
{
    BigUint::from_bytes_be(a) == BigUint::from_bytes_be(b)
}

/// Relies on `<` of `num_bigint::BigUint`: the order of the two values.
#[verifier::external_body]
pub(crate) fn big_lt(a: &[u8], b: &[u8]) -> (r: bool)
    ensures
        r == (be_value(a@) < be_value(b@)),
{
    BigUint::from_bytes_be(a) < BigUint::from_bytes_be(b)
}


/// The bytes of the integer one.
pub fn one_bytes() -> (r: Vec<u8>)
    ensures
        be_value(r@) == 1,
{
    let r: Vec<u8> = vec![1u8];
    proof {
        reveal_with_fuel(be_value, 2);
        assert(r@.drop_last() =~= Seq::<u8>::empty());
    }
    r
}

/// Greatest common divisor of two integers, by Euclid's algorithm.
pub fn gcd(a: &[u8], b: &[u8]) -> (r: Vec<u8>)
    ensures
        be_value(r@) == gcd_spec(be_value(a@), be_value(b@)),
{
    let mut x: Vec<u8> = slice_to_vec(a);
    let mut y: Vec<u8> = slice_to_vec(b);
    let zero: Vec<u8> = Vec::new();
    while !big_eq(&y, &zero)
        invariant
            be_value(zero@) == 0,
            gcd_spec(be_value(x@), be_value(y@)) == gcd_spec(be_value(a@), be_value(b@)),
        decreases be_value(y@),
    {
        let t = big_rem(&x, &y);
        x = y;
        y = t;
    }
    x
}

/// One step of the extended Euclidean algorithm keeps each cofactor
/// congruent, modulo `n`, to its remainder.
proof fn lemma_cofactor_step(a: int, n: int, t0: int, t1: int, r0: int, r1: int, q: int, rem: int)
    requires
        n > 0,
        (t0 * a) % n == r0 % n,
        (t1 * a) % n == r1 % n,
        r0 == q * r1 + rem,
    ensures
        ((t0 + n - (q * t1) % n) * a) % n == rem % n,
{
    lemma_fundamental_div_mod(t0 * a, n);
    lemma_fundamental_div_mod(r0, n);
    lemma_fundamental_div_mod(t1 * a, n);
    lemma_fundamental_div_mod(r1, n);
    lemma_fundamental_div_mod(q * t1, n);
    let k0 = (t0 * a) / n - r0 / n;
    let k1 = (t1 * a) / n - r1 / n;
    let j = (q * t1) / n;
    assert(t0 * a == r0 + n * k0) by (nonlinear_arith)
        requires
            t0 * a == n * ((t0 * a) / n) + (t0 * a) % n,
            r0 == n * (r0 / n) + r0 % n,
            (t0 * a) % n == r0 % n,
            k0 == (t0 * a) / n - r0 / n,
    ;
    assert(t1 * a == r1 + n * k1) by (nonlinear_arith)
        requires
            t1 * a == n * ((t1 * a) / n) + (t1 * a) % n,
            r1 == n * (r1 / n) + r1 % n,
            (t1 * a) % n == r1 % n,
            k1 == (t1 * a) / n - r1 / n,
    ;
    let y = (q * t1) % n;
    let big_k = k0 + a - q * k1 + j * a;
    assert((t0 + n - y) * a == t0 * a + n * a - y * a) by (nonlinear_arith);
    assert(y * a == (q * t1) * a - n * (j * a)) by (nonlinear_arith)
        requires
            y == q * t1 - n * j,
    ;
    assert((q * t1) * a == q * r1 + n * (q * k1)) by (nonlinear_arith)
        requires
            t1 * a == r1 + n * k1,
    ;
    assert(n * k0 + n * a - n * (q * k1) + n * (j * a) == n * big_k) by (nonlinear_arith)
        requires
            big_k == k0 + a - q * k1 + j * a,
    ;
    lemma_mod_multiples_vanish(big_k, rem, n);
}

/// Inverse of `a` modulo `n`, by the extended Euclidean algorithm: it exists
/// exactly when `a` and `n` are coprime.
pub fn mod_inverse(a: &[u8], n: &[u8]) -> (r: Option<Vec<u8>>)
    requires
        be_value(n@) > 0,
    ensures
        r.is_some() <==> gcd_spec(be_value(a@), be_value(n@)) == 1,
        r matches Some(x) ==> be_value(x@) < be_value(n@) && (be_value(a@) * be_value(x@))
            % be_value(n@) == 1nat % be_value(n@),
{
    let ghost av = be_value(a@) as int;
    let ghost nv = be_value(n@) as int;
    let zero: Vec<u8> = Vec::new();
    let mut r0: Vec<u8> = slice_to_vec(n);
    let mut r1: Vec<u8> = big_rem(a, n);
    let mut t0: Vec<u8> = Vec::new();
    let mut t1: Vec<u8> = one_bytes();
    proof {
        assert(gcd_spec(be_value(a@), be_value(n@)) == gcd_spec(be_value(n@), be_value(a@) % be_value(n@)));
        lemma_mod_self_0(nv);
        assert(0 * av == 0);
        lemma_small_mod(0, nv as nat);
        assert((0 * av) % nv == nv % nv);
        lemma_mod_twice(av, nv);
        assert((1 * av) % nv == (av % nv) % nv);
    }
    while !big_eq(&r1, &zero)
        invariant
            nv == be_value(n@),
            av == be_value(a@),
            nv > 0,
            be_value(zero@) == 0,
            gcd_spec(be_value(r0@), be_value(r1@)) == gcd_spec(be_value(a@), be_value(n@)),
            (be_value(t0@) * av) % nv == be_value(r0@) as int % nv,
            (be_value(t1@) * av) % nv == be_value(r1@) as int % nv,
        decreases be_value(r1@),
    {
        let q = big_div(&r0, &r1);
        let rem = big_rem(&r0, &r1);
        let qt = big_rem(&big_mul(&q, &t1), n);
        let shifted = big_add(&t0, n);
        let t2 = big_rem(&big_sub(&shifted, &qt), n);
        proof {
            let r0v = be_value(r0@) as int;
            let r1v = be_value(r1@) as int;
            lemma_fundamental_div_mod(r0v, r1v);
            lemma_cofactor_step(
                av,
                nv,
                be_value(t0@) as int,
                be_value(t1@) as int,
                r0v,
                r1v,
                be_value(q@) as int,
                be_value(rem@) as int,
            );
            let tsum = be_value(t0@) as int + nv - be_value(qt@) as int;
            lemma_mul_mod_noop_left(tsum, av, nv);
        }
        r0 = r1;
        r1 = rem;
        t0 = t1;
        t1 = t2;
    }
    let one = one_bytes();
    if big_eq(&r0, &one) {
        let x = big_rem(&t0, n);
        proof {
            lemma_mul_mod_noop_right(av, be_value(t0@) as int, nv);
            lemma_mul_is_commutative(av, be_value(t0@) as int);
        }
        Some(x)
    } else {
        None
    }
}

} // verus!
