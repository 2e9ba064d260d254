use ordinal_cash::uint::U256;
use ordinal_cash::utils::{add_reduced, addmod, field_modulus, mod_pow, mulmod, normalize, zero_leaf};

fn num(s: &str) -> U256 {
    let e = ethnum::U256::from_str_radix(s, 10).unwrap();
    U256::from_words(*e.high(), *e.low())
}

fn lift(e: ethnum::U256) -> U256 {
    U256::from_words(*e.high(), *e.low())
}

const FIELD: &str = "21888242871839275222246405745257275088548364400416034343698204186575808495617";

#[test]
fn test_addmod_under_10() {
    let a = U256::new(1);
    let b = U256::new(2);
    let m = U256::new(10);
    assert_eq!(U256::new(3), addmod(&a, &b, &m));
}

#[test]
fn test_addmod_over_10() {
    let a = U256::new(9);
    let b = U256::new(9);
    let m = U256::new(10);
    assert_eq!(U256::new(8), addmod(&a, &b, &m));
}

#[test]
fn test_addmod_overflow() {
    let a = ethnum::U256::from_str_radix(
        "21663839004416932945382355908790599225266501822907911457504978515578255421292",
        10,
    )
    .unwrap();
    let m = ethnum::U256::from_str_radix(FIELD, 10).unwrap();
    let b = m - a + 1;
    assert_eq!(U256::new(1), addmod(&lift(a), &lift(b), &lift(m)));
}

#[test]
fn test_pow_mod() {
    let b = num("7120861356467848435263064379192047478074060781135320967663101236819528304087");
    let e = num("5");
    let m = num(FIELD);
    let expected = num("10745147226606258107230518846003648962088186972186954460246329063381405757050");
    assert_eq!(mod_pow(&b, &e, &m), expected);
}

#[test]
fn addmod_reduces_a_sum_that_leaves_256_bits() {
    // (2^256 - 1) + (2^256 - 1) = 2^257 - 2, and 2^257 - 2 mod 7 = 2
    let max = U256::from_words(u128::MAX, u128::MAX);
    assert_eq!(addmod(&max, &max, &U256::new(7)), U256::new(2));
    // modulo 2^256 - 1 the sum is zero
    assert_eq!(addmod(&max, &max, &max), U256::new(0));
    // (2^256 - 1) + 1 = 2^256 = 1 mod (2^256 - 1)
    assert_eq!(addmod(&max, &U256::new(1), &max), U256::new(1));
}

#[test]
fn addmod_reduces_a_sum_at_or_above_the_modulus() {
    let m = num(FIELD);
    let below = num("21888242871839275222246405745257275088548364400416034343698204186575808495616");
    assert_eq!(addmod(&below, &U256::new(1), &m), U256::new(0));
    assert_eq!(addmod(&below, &below, &m), num("21888242871839275222246405745257275088548364400416034343698204186575808495615"));
    assert_eq!(addmod(&U256::new(0), &U256::new(0), &m), U256::new(0));
}

#[test]
fn add_reduced_wraps_once() {
    let m = U256::from_words(u128::MAX, u128::MAX);
    let a = U256::from_words(u128::MAX, u128::MAX - 1);
    // (m - 1) + (m - 1) = 2m - 2 = m - 2 mod m
    assert_eq!(add_reduced(a, a, m), U256::from_words(u128::MAX, u128::MAX - 2));
    assert_eq!(add_reduced(U256::new(3), U256::new(4), U256::new(10)), U256::new(7));
    assert_eq!(add_reduced(U256::new(6), U256::new(4), U256::new(10)), U256::new(0));
}

#[test]
fn mulmod_gives_the_exact_residue() {
    assert_eq!(mulmod(&U256::new(7), &U256::new(8), &U256::new(10)), U256::new(6));
    assert_eq!(mulmod(&U256::new(0), &U256::new(8), &U256::new(10)), U256::new(0));
    assert_eq!(mulmod(&U256::new(7), &U256::new(18), &U256::new(10)), U256::new(6));
    assert_eq!(mulmod(&U256::new(7), &U256::new(8), &U256::new(1)), U256::new(0));
    // (p - 1)^2 = 1 mod p
    let m = num(FIELD);
    let below = num("21888242871839275222246405745257275088548364400416034343698204186575808495616");
    assert_eq!(mulmod(&below, &below, &m), U256::new(1));
    // (2^256 - 1)^2 mod (2^256 - 2) = 1
    let max = U256::from_words(u128::MAX, u128::MAX);
    let under = U256::from_words(u128::MAX, u128::MAX - 1);
    assert_eq!(mulmod(&max, &max, &under), U256::new(1));
    // 2^128 * 2^128 = 2^256 = 1 mod (2^256 - 1)
    let high = U256::from_words(1, 0);
    assert_eq!(mulmod(&high, &high, &max), U256::new(1));
}

#[test]
fn mulmod_agrees_with_wide_arithmetic() {
    let a = num("12345678901234567890123456789012345678901234567890");
    let b = num("98765432109876543210987654321098765432109876543210");
    let m = num(FIELD);
    // computed with arbitrary-precision arithmetic
    let expected = num("1476025239850865772888313753328132807173985418210471644103231973181912135344");
    assert_eq!(mulmod(&a, &b, &m), expected);
}

#[test]
fn mod_pow_edge_cases() {
    let m = num(FIELD);
    assert_eq!(mod_pow(&U256::new(2), &U256::new(10), &U256::new(1000)), U256::new(24));
    assert_eq!(mod_pow(&U256::new(5), &U256::new(0), &m), U256::new(1));
    assert_eq!(mod_pow(&U256::new(0), &U256::new(0), &m), U256::new(1));
    assert_eq!(mod_pow(&U256::new(0), &U256::new(5), &m), U256::new(0));
    assert_eq!(mod_pow(&U256::new(5), &U256::new(3), &U256::new(1)), U256::new(0));
    // Fermat: a^(p - 1) = 1 mod p
    let below = num("21888242871839275222246405745257275088548364400416034343698204186575808495616");
    assert_eq!(mod_pow(&U256::new(3), &below, &m), U256::new(1));
}

#[test]
fn normalize_is_the_remainder() {
    let m = num(FIELD);
    let max = U256::from_words(u128::MAX, u128::MAX);
    assert_eq!(normalize(&U256::new(7), &U256::new(5)), U256::new(2));
    assert_eq!(normalize(&m, &m), U256::new(0));
    // 2^256 - 1 mod p
    assert_eq!(
        normalize(&max, &m),
        num("6350874878119819312338956282401532410528162663560392320966563075034087161850")
    );
}

#[test]
fn empty_leaf_is_the_reduced_digest_of_its_name() {
    let mut hasher = tiny_keccak::Keccak::v256();
    tiny_keccak::Hasher::update(&mut hasher, b"tornado");
    let mut digest = [0u8; 32];
    tiny_keccak::Hasher::finalize(hasher, &mut digest);
    let reduced = lift(ethnum::U256::from_be_bytes(digest) % ethnum::U256::from_str_radix(FIELD, 10).unwrap());
    assert_eq!(zero_leaf(), reduced);
    assert_eq!(normalize(&lift(ethnum::U256::from_be_bytes(digest)), &field_modulus()), zero_leaf());
}

#[test]
fn constants_have_their_decimal_values() {
    assert_eq!(field_modulus(), num(FIELD));
    assert_eq!(
        zero_leaf(),
        num("21663839004416932945382355908790599225266501822907911457504978515578255421292")
    );
}

#[test]
fn words_order_and_halves() {
    let x = U256::from_words(3, 5);
    assert_eq!(x.into_words(), (3, 5));
    assert!(!x.is_zero());
    assert!(U256::new(0).is_zero());
    assert!(x.is_odd());
    assert!(!U256::from_words(1, 0).is_odd());
    assert_eq!(x.half(), U256::from_words(1, (1u128 << 127) + 2));
    assert!(U256::from_words(0, u128::MAX).lt(&U256::from_words(1, 0)));
    assert!(U256::from_words(1, 0).gt(&U256::from_words(0, u128::MAX)));
    assert!(x.le(&x) && x.ge(&x) && !x.lt(&x) && !x.gt(&x));
}
