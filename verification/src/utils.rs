//! Modular arithmetic on 256-bit values.
//!
//! Every function returns the exact residue, also where the intermediate
//! sum or product would not fit into 256 bits.

use crate::uint::{overflowing_add, rem, wrapping_add, wrapping_sub, U256};
use vstd::arithmetic::div_mod::{
    lemma_add_mod_noop, lemma_mod_bound, lemma_mod_sub_multiples_vanish, lemma_mul_mod_noop_general,
    lemma_mul_mod_noop_right, lemma_small_mod,
};
use vstd::arithmetic::power::{lemma_pow_mod_noop, lemma_pow_multiplies, lemma_square_is_pow2, pow};
use vstd::prelude::*;

verus! {

/// The order of the BN254 scalar field, the modulus of every hash and tree value.
pub open spec fn field_size() -> nat {
    21888242871839275222246405745257275088548364400416034343698204186575808495617nat
}

/// The field modulus as a value.
pub fn field_modulus() -> (r: U256)
    ensures
        r@ == field_size(),
{
    U256::from_words(0x30644e72_e131a029_b85045b6_8181585d, 0x2833e848_79b97091_43e1f593_f0000001)
}

/// The value of an empty leaf: the Keccak-256 digest of `tornado`, reduced
/// into the field.
pub open spec fn zero_value() -> nat {
    21663839004416932945382355908790599225266501822907911457504978515578255421292nat
}

/// The empty leaf as a value.
pub fn zero_leaf() -> (r: U256)
    ensures
        r@ == zero_value(),
{
    U256::from_words(0x2fe54c60_d3acabf3_343a35b6_eba15db4, 0x821b340f_76e741e2_249685ed_4899af6c)
}

/// A value in `m..2m` is reduced by one subtraction.
proof fn lemma_mod_one_subtraction(x: int, m: int)
    requires
        0 < m <= x < 2 * m,
    ensures
        x % m == x - m,
{
    lemma_mod_sub_multiples_vanish(x, m);
    lemma_small_mod((x - m) as nat, m as nat);
}

/// One round of double-and-add keeps `acc + a * b` in its residue class.
proof fn lemma_double_and_add_step(acc: int, a: int, b: int, m: int)
    requires
        0 < m,
        0 <= a,
    ensures
        ((acc + (a % 2) * b) % m + (a / 2) * ((2 * b) % m)) % m == (acc + a * b) % m,
{
    let x = acc + (a % 2) * b;
    let h = a / 2;
    assert(acc + a * b == x + h * (2 * b)) by (nonlinear_arith)
        requires
            x == acc + (a % 2) * b,
            h == a / 2,
    ;
    lemma_mul_mod_noop_right(h, 2 * b, m);
    lemma_add_mod_noop(x, h * (2 * b), m);
    lemma_add_mod_noop(x % m, h * ((2 * b) % m), m);
    lemma_mod_bound(x, m);
    lemma_small_mod((x % m) as nat, m as nat);
}

/// Halving the exponent squares the base; an odd exponent leaves one factor over.
proof fn lemma_pow_halve(b: int, e: nat)
    ensures
        pow(b, e) == if e % 2 == 1 {
            b * pow(b * b, e / 2)
        } else {
            pow(b * b, e / 2)
        },
{
    lemma_square_is_pow2(b);
    lemma_pow_multiplies(b, 2, e / 2);
    if e % 2 == 1 {
        assert(2 * (e / 2) == e - 1);
        reveal_with_fuel(pow, 1);
    } else {
        assert(2 * (e / 2) == e);
    }
}

/// One round of square-and-multiply keeps `acc * base^e` in its residue class.
proof fn lemma_square_and_multiply_step(acc: int, base: int, e: nat, m: int)
    requires
        0 < m,
    ensures
        e % 2 == 1 ==> (((acc * base) % m) * pow((base * base) % m, e / 2)) % m == (acc * pow(
            base,
            e,
        )) % m,
        e % 2 == 0 ==> (acc * pow((base * base) % m, e / 2)) % m == (acc * pow(base, e)) % m,
{
    let sq = base * base;
    let h = e / 2;
    lemma_pow_halve(base, e);
    lemma_pow_mod_noop(sq, h, m);
    // pow(sq % m, h) and pow(sq, h) share a residue
    if e % 2 == 1 {
        lemma_mul_mod_noop_general(acc * base, pow(sq % m, h), m);
        lemma_mul_mod_noop_general(acc * base, pow(sq, h), m);
        assert((acc * base) * pow(sq, h) == acc * (base * pow(sq, h))) by (nonlinear_arith);
    } else {
        lemma_mul_mod_noop_general(acc, pow(sq % m, h), m);
        lemma_mul_mod_noop_general(acc, pow(sq, h), m);
    }
}

/// The sum of two residues of `m`, reduced again, without leaving 256 bits.
pub fn add_reduced(a: U256, b: U256, m: U256) -> (r: U256)
    requires
        a@ < m@,
        b@ < m@,
    ensures
        r@ == (a@ + b@) % m@,
{
    let gap = wrapping_sub(m, a);
    assert(gap@ == m@ - a@);
    if b.ge(&gap) {
        proof {
            lemma_mod_one_subtraction((a@ + b@) as int, m@ as int);
        }
        wrapping_sub(b, gap)
    } else {
        proof {
            lemma_small_mod(a@ + b@, m@);
        }
        wrapping_add(a, b)
    }
}

/// `(x + y) mod m`, for any `x` and `y`. The sum is formed with its carry;
/// where it left 256 bits or reached `m`, it is reduced.
pub fn addmod(x: &U256, y: &U256, m: &U256) -> (r: U256)
    requires
        m@ != 0,
    ensures
        r@ == (x@ + y@) % m@,
{
    let (out, carry) = overflowing_add(*x, *y);
    if carry {
        proof {
            lemma_add_mod_noop(x@ as int, y@ as int, m@ as int);
            lemma_mod_bound(x@ as int, m@ as int);
            lemma_mod_bound(y@ as int, m@ as int);
        }
        add_reduced(rem(*x, *m), rem(*y, *m), *m)
    } else if m.le(&out) {
        rem(out, *m)
    } else {
        proof {
            lemma_small_mod(out@, m@);
        }
        out
    }
}

/// `a mod p`.
pub fn normalize(a: &U256, p: &U256) -> (r: U256)
    requires
        p@ != 0,
    ensures
        r@ == a@ % p@,
{
    rem(*a, *p)
}

/// `(a * b) mod m`, for any `a` and `b`, by double-and-add over the bits of
/// `a`, so that the product itself is never formed.
pub fn mulmod(a: &U256, b: &U256, m: &U256) -> (r: U256)
    requires
        m@ != 0,
    ensures
        r@ == (a@ * b@) % m@,
{
    let ghost a0: int = a@ as int;
    let ghost b0: int = b@ as int;
    let ghost mm: int = m@ as int;
    let m = *m;
    let mut a = *a;
    let mut b = if b.ge(&m) {
        rem(*b, m)
    } else {
        *b
    };
    let mut res = U256::new(0);
    proof {
        lemma_mod_bound(b0, mm);
        if b0 < mm {
            lemma_small_mod(b0 as nat, mm as nat);
        }
        lemma_mul_mod_noop_right(a0, b0, mm);
    }
    while !a.is_zero()
        invariant
            mm == m@,
            mm > 0,
            b@ < m@,
            res@ < m@,
            ((res@ + a@ * b@) as int) % mm == (a0 * b0) % mm,
        decreases a@,
    {
        let ghost before: int = (res@ + a@ * b@) as int;
        proof {
            lemma_double_and_add_step(res@ as int, a@ as int, b@ as int, mm);
            lemma_small_mod(res@, m@);
        }
        if a.is_odd() {
            assert((a@ % 2) * b@ == b@) by (nonlinear_arith)
                requires
                    a@ % 2 == 1,
            ;
            res = add_reduced(res, b, m);
        } else {
            assert((a@ % 2) * b@ == 0) by (nonlinear_arith)
                requires
                    a@ % 2 == 0,
            ;
        }
        a = a.half();
        b = add_reduced(b, b, m);
        assert(((res@ + a@ * b@) as int) % mm == before % mm);
    }
    proof {
        assert(a@ * b@ == 0) by (nonlinear_arith)
            requires
                a@ == 0,
        ;
        lemma_small_mod(res@, m@);
    }
    res
}

/// `base^exp mod modulus` by square-and-multiply over the bits of `exp`.
/// Modulus one gives zero.
pub fn mod_pow(base: &U256, exp: &U256, modulus: &U256) -> (r: U256)
    requires
        modulus@ != 0,
    ensures
        r@ == pow(base@ as int, exp@) % (modulus@ as int),
{
    let ghost b0: int = base@ as int;
    let ghost e0: nat = exp@;
    let ghost mm: int = modulus@ as int;
    let m = *modulus;
    if m == U256::new(1) {
        return U256::new(0);
    }
    let mut result = U256::new(1);
    let mut exp = *exp;
    let mut base = rem(*base, m);
    proof {
        lemma_pow_mod_noop(b0, e0, mm);
        assert(1 * pow(base@ as int, e0) == pow(base@ as int, e0));
    }
    while !exp.is_zero()
        invariant
            mm == m@,
            mm > 1,
            result@ < m@,
            base@ < m@,
            ((result@ as int) * pow(base@ as int, exp@)) % mm == pow(b0, e0) % mm,
        decreases exp@,
    {
        proof {
            lemma_square_and_multiply_step(result@ as int, base@ as int, exp@, mm);
        }
        if exp.is_odd() {
            result = mulmod(&result, &base, &m);
        }
        exp = exp.half();
        if !exp.is_zero() {
            base = mulmod(&base, &base, &m);
        } else {
            proof {
                reveal_with_fuel(pow, 1);
            }
        }
    }
    proof {
        reveal_with_fuel(pow, 1);
        assert(result@ * 1 == result@);
        lemma_small_mod(result@, m@);
    }
    result
}

} // verus!
