use ark_bn254::{Bn254, Fq, Fq2 as ArkFq2, Fr as ArkFr, G1Affine, G2Affine};
use ark_ec::{AffineCurve, PairingEngine, ProjectiveCurve};
use ark_ff::{BigInteger256, Field, PrimeField};
use ark_groth16::prepare_verifying_key;
use ordinal_cash::ordinal_cash::to_fr;
use ordinal_cash::pairing::{
    base_field_modulus, pairing_product_is_one, pcs, verify_proof, verifying_key, Fq2, Fr, G1Point, G2Point,
    Proof,
};
use ordinal_cash::uint::U256;
use std::str::FromStr;

fn big(s: &str) -> U256 {
    let e = ethnum::U256::from_str_radix(s, 10).unwrap();
    U256::from_words(*e.high(), *e.low())
}

fn coordinate(f: Fq) -> U256 {
    let w = f.into_repr().0;
    U256::from_words(((w[3] as u128) << 64) | w[2] as u128, ((w[1] as u128) << 64) | w[0] as u128)
}

fn ark_coordinate(x: U256) -> Fq {
    let (hi, lo) = x.into_words();
    Fq::from_repr(BigInteger256::new([lo as u64, (lo >> 64) as u64, hi as u64, (hi >> 64) as u64])).unwrap()
}

fn g1_of(p: G1Affine) -> G1Point {
    G1Point::new(coordinate(p.x), coordinate(p.y), p.infinity)
}

fn g2_of(q: G2Affine) -> G2Point {
    G2Point::new(
        Fq2::new(coordinate(q.x.c0), coordinate(q.x.c1)),
        Fq2::new(coordinate(q.y.c0), coordinate(q.y.c1)),
        q.infinity,
    )
}

fn ark_g1(p: G1Point) -> G1Affine {
    G1Affine::new(ark_coordinate(p.x), ark_coordinate(p.y), p.infinity)
}

fn ark_g2(q: G2Point) -> G2Affine {
    G2Affine::new(
        ArkFq2::new(ark_coordinate(q.x.c0), ark_coordinate(q.x.c1)),
        ArkFq2::new(ark_coordinate(q.y.c0), ark_coordinate(q.y.c1)),
        q.infinity,
    )
}

fn ark_key() -> ark_groth16::VerifyingKey<Bn254> {
    let vk = verifying_key();
    ark_groth16::VerifyingKey {
        alpha_g1: ark_g1(vk.alpha_g1),
        beta_g2: ark_g2(vk.beta_g2),
        gamma_g2: ark_g2(vk.gamma_g2),
        delta_g2: ark_g2(vk.delta_g2),
        gamma_abc_g1: vk.gamma_abc_g1.iter().map(|p| ark_g1(*p)).collect(),
    }
}

fn sample_proof() -> Proof {
    let a = G1Point::new(
        big("6160569254972695033541751837268483084366769085559190351203251273104161418400"),
        big("20752637131085270521468616099378777282140643373828587571739440568509124276056"),
        false,
    );
    let b = G2Point::new(
        Fq2::new(
            big("13491861502261516983101645835022566763609289651768567310911403618761646949192"),
            big("3945102381244376369012265840723718630151501000113196168586847393173187043791"),
        ),
        Fq2::new(
            big("2085938618828745684062388752928952586729586420152554769557897926110027529638"),
            big("6905794850663567498189336560369926542004763485239983052761138480096642452652"),
        ),
        false,
    );
    let c = G1Point::new(
        big("13305831737468453023847968374851929911131764663101012129143182418423488429101"),
        big("8142609777444797171303864593507761446494142436560247433779193992616167019550"),
        false,
    );
    Proof { a, b, c }
}

const SIGNALS: [&str; 6] = [
    "18141211044530898481780712096785380507009040886197825359491225784587697908689",
    "17369391381428457005685637744737812745147294406289952788882032335952086150537",
    "617288482572789990873151114501867268774234674064",
    "827641930419614124039720421795580660909102123457",
    "50000000000000000",
    "0",
];

fn scalars_of(signals: &[&str]) -> Vec<Fr> {
    signals.iter().map(|s| to_fr(&big(s)).unwrap()).collect()
}

fn ark_scalars_of(signals: &[&str]) -> Vec<ArkFr> {
    signals.iter().map(|s| ArkFr::from_str(s).unwrap()).collect()
}

#[test]
fn test_curve() {
    let a = G1Affine::prime_subgroup_generator();
    let b = G2Affine::prime_subgroup_generator();

    assert_eq!(Bn254::pairing(a, b.mul(2)), Bn254::pairing(a, b).pow([2]));
    assert_eq!(Bn254::pairing(a, b.mul(2)), Bn254::pairing(a.mul(2), b));
    assert_eq!(Bn254::pairing(a, -b), Bn254::pairing(-a, b));
    assert!(pcs(&[g1_of(a), g1_of(-a)], &[g2_of(b), g2_of(b)]));
}

#[test]
fn test_verifier() {
    let proof = sample_proof();
    let ark_proof = ark_groth16::Proof::<Bn254> { a: ark_g1(proof.a), b: ark_g2(proof.b), c: ark_g1(proof.c) };
    let mut signals = SIGNALS;

    assert!(verify_proof(proof, &scalars_of(&signals)));

    let pvk = prepare_verifying_key(&ark_key());
    let ret = ark_groth16::verify_proof(&pvk, &ark_proof, ark_scalars_of(&signals).as_slice());
    assert_eq!(ret, Ok(true));

    signals[1] = "1337";

    assert!(!verify_proof(proof, &scalars_of(&signals)));
    let pvk = prepare_verifying_key(&ark_key());
    let ret = ark_groth16::verify_proof(&pvk, &ark_proof, ark_scalars_of(&signals).as_slice());
    assert_eq!(ret, Ok(false));
}

#[test]
fn verifier_wants_six_inputs() {
    let proof = sample_proof();
    assert!(!verify_proof(proof, &scalars_of(&SIGNALS[..5])));
    assert!(!verify_proof(proof, &[]));
    let mut seven = SIGNALS.to_vec();
    seven.push("0");
    assert!(!verify_proof(proof, &scalars_of(&seven)));
}

#[test]
fn verifier_rejects_a_changed_proof() {
    let good = sample_proof();
    // each part of the proof matters
    let mut proof = good;
    proof.a = good.c;
    assert!(!verify_proof(proof, &scalars_of(&SIGNALS)));
    let mut proof = good;
    proof.c = good.a;
    assert!(!verify_proof(proof, &scalars_of(&SIGNALS)));
    let mut proof = good;
    proof.b = g2_of(G2Affine::prime_subgroup_generator());
    assert!(!verify_proof(proof, &scalars_of(&SIGNALS)));
    // so does each input
    for i in 0..6 {
        let mut signals = SIGNALS;
        signals[i] = "3";
        assert!(!verify_proof(good, &scalars_of(&signals)), "{}", i);
    }
}

#[test]
fn verifier_rejects_what_is_no_point() {
    let good = sample_proof();
    // a coordinate that is no element of the base field
    let mut proof = good;
    proof.c.x = base_field_modulus();
    assert!(!verify_proof(proof, &scalars_of(&SIGNALS)));
    let mut proof = good;
    proof.a.y = U256::from_words(u128::MAX, u128::MAX);
    assert!(!verify_proof(proof, &scalars_of(&SIGNALS)));
    let mut proof = good;
    proof.b.y.c1 = base_field_modulus();
    assert!(!verify_proof(proof, &scalars_of(&SIGNALS)));
    // coordinates off the curve
    let mut proof = good;
    proof.a = G1Point::new(U256::new(0), U256::new(0), false);
    assert!(!verify_proof(proof, &scalars_of(&SIGNALS)));
}

#[test]
fn negation_agrees_with_the_curve_library() {
    let a = G1Affine::prime_subgroup_generator();
    assert_eq!(g1_of(a).neg(), g1_of(-a));
    assert_eq!(g1_of(a), G1Point::new(U256::new(1), U256::new(2), false));
    assert_eq!(
        g1_of(a).neg(),
        G1Point::new(
            U256::new(1),
            big("21888242871839275222246405745257275088696311157297823662689037894645226208581"),
            false
        )
    );
    let doubled = a.mul(2).into_affine();
    assert_eq!(g1_of(doubled).neg(), g1_of(-doubled));
    assert_eq!(g1_of(doubled).neg().neg(), g1_of(doubled));
    let infinity = G1Point::new(U256::new(0), U256::new(1), true);
    assert_eq!(infinity.neg(), infinity);
    let flat = G1Point::new(U256::new(5), U256::new(0), false);
    assert_eq!(flat.neg(), flat);
    let outside = G1Point::new(U256::new(5), base_field_modulus(), false);
    assert_eq!(outside.neg(), outside);
}

#[test]
fn points_are_written_low_byte_first() {
    let p = G1Point::new(
        U256::from_words(0x1f1e1d1c_1b1a1918_17161514_13121110, 0x0f0e0d0c_0b0a0908_07060504_03020100),
        U256::new(0x0102),
        true,
    );
    let mut expected: Vec<u8> = (0u8..32).collect();
    expected.extend_from_slice(&[2, 1]);
    expected.extend_from_slice(&[0u8; 30]);
    expected.push(1);
    assert_eq!(p.encode(), expected);

    let q = G2Point::new(
        Fq2::new(U256::new(1), U256::new(2)),
        Fq2::new(U256::new(3), U256::from_words(4, 0)),
        false,
    );
    let bytes = q.encode();
    assert_eq!(bytes.len(), 129);
    assert_eq!(bytes[0], 1);
    assert_eq!(bytes[32], 2);
    assert_eq!(bytes[64], 3);
    assert_eq!(bytes[96 + 16], 4);
    assert_eq!(bytes[128], 0);
    assert_eq!(bytes.iter().map(|b| *b as u32).sum::<u32>(), 10);
}

#[test]
fn pairing_products() {
    let a = G1Affine::prime_subgroup_generator();
    let b = G2Affine::prime_subgroup_generator();
    // no pair at all: the empty product is one
    assert!(pcs(&[], &[]));
    assert!(pairing_product_is_one(&Vec::new(), &Vec::new()));
    // a single pairing of the generators is not one
    assert!(!pcs(&[g1_of(a)], &[g2_of(b)]));
    // the longer list is cut to the shorter
    assert!(pcs(&[g1_of(a), g1_of(-a), g1_of(a)], &[g2_of(b), g2_of(b)]));
    assert!(pcs(&[g1_of(a)], &[]));
    // e(2a, b) * e(-a, 2b) = 1
    let a2 = a.mul(2).into_affine();
    let b2 = b.mul(2).into_affine();
    assert!(pcs(&[g1_of(a2), g1_of(-a)], &[g2_of(b), g2_of(b2)]));
    assert!(!pcs(&[g1_of(a2), g1_of(a)], &[g2_of(b), g2_of(b2)]));
    // the point at infinity pairs to one
    let infinity = G1Point::new(U256::new(0), U256::new(1), true);
    assert!(pcs(&[infinity], &[g2_of(b)]));
    // bytes that are no point
    assert!(!pairing_product_is_one(&vec![vec![1u8, 2, 3]], &vec![g2_of(b).encode()]));
    assert!(pairing_product_is_one(&vec![g1_of(a).encode(), g1_of(-a).encode()], &vec![g2_of(b).encode(), g2_of(b).encode()]));
}

#[test]
fn key_holds_the_published_points() {
    let vk = verifying_key();
    assert_eq!(vk.gamma_abc_g1.len(), 7);
    assert_eq!(
        vk.alpha_g1,
        G1Point::new(
            big("20692898189092739278193869274495556617788530808486270118371701516666252877969"),
            big("11713062878292653967971378194351968039596396853904572879488166084231740557279"),
            false
        )
    );
    assert_eq!(
        vk.delta_g2.y.c1,
        big("1081836006956609894549771334721413187913047383331561601606260283167615953295")
    );
    assert_eq!(
        vk.gamma_abc_g1[6].y,
        big("5311597067667671581646709998171703828965875677637292315055030353779531404812")
    );
    // every point of the key lies on its curve, in the right subgroup
    let key = ark_key();
    assert!(key.alpha_g1.is_on_curve());
    for q in [key.beta_g2, key.gamma_g2, key.delta_g2] {
        assert!(q.is_on_curve() && q.is_in_correct_subgroup_assuming_on_curve());
    }
    for p in key.gamma_abc_g1 {
        assert!(p.is_on_curve());
    }
}
