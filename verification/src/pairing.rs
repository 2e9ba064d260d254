//! A Groth16 verifier over BN254 for one fixed verifying key.
//!
//! Points and target-group elements cross into `ark_ec` in the byte form of
//! `ark_ff`: each coordinate as 32 bytes, the least significant first, and
//! one byte for the infinity flag of a point.

use crate::uint::{le_bytes, to_le_bytes, u256, wrapping_sub, U256};
use crate::utils::{field_modulus, field_size};
use ark_bn254::{Bn254, Fq12, G1Affine, G2Affine};
use ark_ec::{AffineCurve, PairingEngine, ProjectiveCurve};
use ark_ff::{FromBytes, PrimeField, ToBytes};
use vstd::prelude::*;

verus! {

/// The order of the base field of BN254.
pub open spec fn base_field_size() -> nat {
    21888242871839275222246405745257275088696311157297823662689037894645226208583nat
}

/// The base field modulus as a value.
pub fn base_field_modulus() -> (r: U256)
    ensures
        r@ == base_field_size(),
{
    U256::from_words(0x30644e72_e131a029_b85045b6_8181585d, 0x97816a91_6871ca8d_3c208c16_d87cfd47)
}

/// An element of the scalar field.
#[derive(Clone, Copy, Debug, PartialEq, Eq)]
pub struct Fr {
    value: U256,
}

impl View for Fr {
    type V = nat;

    closed spec fn view(&self) -> nat {
        self.value@
    }
}

impl Fr {
    #[verifier::type_invariant]
    spec fn in_field(self) -> bool {
        self.value@ < field_size()
    }

    /// The scalar with the value `e`, where `e` is below the order of the field.
    pub fn from_u256(e: &U256) -> (r: Option<Fr>)
        ensures
            e@ < field_size() ==> r.is_some() && r.unwrap()@ == e@,
            e@ >= field_size() ==> r.is_none(),
    {
        if e.lt(&field_modulus()) {
            Some(Fr { value: *e })
        } else {
            None
        }
    }

    /// The value of the scalar.
    pub fn value(&self) -> (v: U256)
        ensures
            v@ == self@,
            v@ < field_size(),
    {
        proof {
            use_type_invariant(self);
        }
        self.value
    }
}

/// The values of a list of scalars.
pub open spec fn scalars(input: Seq<Fr>) -> Seq<nat> {
    Seq::new(input.len(), |i: int| input[i]@)
}

/// A point of G1 in affine coordinates over the base field.
#[derive(Clone, Copy, Debug, PartialEq, Eq, Structural)]
pub struct G1Point {
    pub x: U256,
    pub y: U256,
    pub infinity: bool,
}

/// An element `c0 + c1 * u` of the quadratic extension of the base field.
#[derive(Clone, Copy, Debug, PartialEq, Eq, Structural)]
pub struct Fq2 {
    pub c0: U256,
    pub c1: U256,
}

/// A point of G2 in affine coordinates over the quadratic extension.
#[derive(Clone, Copy, Debug, PartialEq, Eq, Structural)]
pub struct G2Point {
    pub x: Fq2,
    pub y: Fq2,
    pub infinity: bool,
}

/// A Groth16 proof.
#[derive(Clone, Copy, Debug, PartialEq, Eq, Structural)]
pub struct Proof {
    pub a: G1Point,
    pub b: G2Point,
    pub c: G1Point,
}

/// A Groth16 verifying key.
pub struct VerifyingKey {
    pub alpha_g1: G1Point,
    pub beta_g2: G2Point,
    pub gamma_g2: G2Point,
    pub delta_g2: G2Point,
    pub gamma_abc_g1: Vec<G1Point>,
}

/// The byte of an infinity flag.
pub open spec fn flag_byte(flag: bool) -> u8 {
    if flag {
        1
    } else {
        0
    }
}

/// The G1 point `(x, y)`.
pub open spec fn g1(x: nat, y: nat) -> G1Point {
    G1Point { x: u256(x), y: u256(y), infinity: false }
}

/// The G2 point `(x0 + x1 * u, y0 + y1 * u)`.
pub open spec fn g2(x0: nat, x1: nat, y0: nat, y1: nat) -> G2Point {
    G2Point {
        x: Fq2 { c0: u256(x0), c1: u256(x1) },
        y: Fq2 { c0: u256(y0), c1: u256(y1) },
        infinity: false,
    }
}

impl G1Point {
    pub fn new(x: U256, y: U256, infinity: bool) -> (p: G1Point)
        ensures
            p == (G1Point { x, y, infinity }),
    {
        G1Point { x, y, infinity }
    }

    /// The point at infinity, as `ark_ec` writes it.
    pub open spec fn zero() -> G1Point {
        G1Point { x: U256 { hi: 0, lo: 0 }, y: U256 { hi: 0, lo: 1 }, infinity: true }
    }

    /// The byte form: `x`, `y`, and the flag.
    pub open spec fn encoding(self) -> Seq<u8> {
        le_bytes(self.x@, 32) + le_bytes(self.y@, 32) + seq![flag_byte(self.infinity)]
    }

    /// The inverse of the point: infinity stays, else `y` changes its sign
    /// in the base field. A point whose `y` is no field element is left
    /// as it is.
    pub open spec fn negation(self) -> G1Point {
        if self.infinity || self.y@ == 0 || self.y@ >= base_field_size() {
            self
        } else {
            G1Point { x: self.x, y: u256((base_field_size() - self.y@) as nat), infinity: false }
        }
    }

    pub fn encode(&self) -> (bytes: Vec<u8>)
        ensures
            bytes@ == self.encoding(),
    {
        let mut bytes = to_le_bytes(self.x);
        let mut y = to_le_bytes(self.y);
        bytes.append(&mut y);
        bytes.push(if self.infinity { 1u8 } else { 0u8 });
        bytes
    }

    pub fn neg(&self) -> (p: G1Point)
        ensures
            p == self.negation(),
    {
        let q = base_field_modulus();
        if self.infinity || self.y.is_zero() || self.y.ge(&q) {
            *self
        } else {
            let y = wrapping_sub(q, self.y);
            G1Point { x: self.x, y, infinity: false }
        }
    }
}

impl Fq2 {
    pub fn new(c0: U256, c1: U256) -> (e: Fq2)
        ensures
            e == (Fq2 { c0, c1 }),
    {
        Fq2 { c0, c1 }
    }
}

impl G2Point {
    pub fn new(x: Fq2, y: Fq2, infinity: bool) -> (p: G2Point)
        ensures
            p == (G2Point { x, y, infinity }),
    {
        G2Point { x, y, infinity }
    }

    /// The byte form: both halves of `x`, both halves of `y`, and the flag.
    pub open spec fn encoding(self) -> Seq<u8> {
        le_bytes(self.x.c0@, 32) + le_bytes(self.x.c1@, 32) + le_bytes(self.y.c0@, 32) + le_bytes(
            self.y.c1@,
            32,
        ) + seq![flag_byte(self.infinity)]
    }

    pub fn encode(&self) -> (bytes: Vec<u8>)
        ensures
            bytes@ == self.encoding(),
    {
        let mut bytes = to_le_bytes(self.x.c0);
        let mut x1 = to_le_bytes(self.x.c1);
        let mut y0 = to_le_bytes(self.y.c0);
        let mut y1 = to_le_bytes(self.y.c1);
        bytes.append(&mut x1);
        bytes.append(&mut y0);
        bytes.append(&mut y1);
        bytes.push(if self.infinity { 1u8 } else { 0u8 });
        bytes
    }
}

/// The G1 point alpha of the key.
pub open spec fn key_alpha() -> G1Point {
    g1(
        20692898189092739278193869274495556617788530808486270118371701516666252877969nat,
        11713062878292653967971378194351968039596396853904572879488166084231740557279nat,
    )
}

/// The G2 point beta of the key.
pub open spec fn key_beta() -> G2Point {
    g2(
        281120578337195720357474965979947690431622127986816839208576358024608803542nat,
        12168528810181263706895252315640534818222943348193302139358377162645029937006nat,
        9011703453772030375124466642203641636825223906145908770308724549646909480510nat,
        16129176515713072042442734839012966563817890688785805090011011570989315559913nat,
    )
}

/// The G2 point gamma of the key.
pub open spec fn key_gamma() -> G2Point {
    g2(
        10857046999023057135944570762232829481370756359578518086990519993285655852781nat,
        11559732032986387107991004021392285783925812861821192530917403151452391805634nat,
        8495653923123431417604973247489272438418190587263600148770280649306958101930nat,
        4082367875863433681332203403145435568316851327593401208105741076214120093531nat,
    )
}

/// The G2 point delta of the key.
pub open spec fn key_delta() -> G2Point {
    g2(
        150879136433974552800030963899771162647715069685890547489132178314736470662nat,
        21280594949518992153305586783242820682644996932183186320680800072133486887432nat,
        11434086686358152335540554643130007307617078324975981257823476472104616196090nat,
        1081836006956609894549771334721413187913047383331561601606260283167615953295nat,
    )
}

/// The seven G1 points that the public inputs are combined over.
pub open spec fn key_basis() -> Seq<G1Point> {
    seq![
        g1(
                16225148364316337376768119297456868908427925829817748684139175309620217098814nat,
                5167268689450204162046084442581051565997733233062478317813755636162413164690nat,
            ),
        g1(
                12882377842072682264979317445365303375159828272423495088911985689463022094260nat,
                19488215856665173565526758360510125932214252767275816329232454875804474844786nat,
            ),
        g1(
                13083492661683431044045992285476184182144099829507350352128615182516530014777nat,
                602051281796153692392523702676782023472744522032670801091617246498551238913nat,
            ),
        g1(
                9732465972180335629969421513785602934706096902316483580882842789662669212890nat,
                2776526698606888434074200384264824461688198384989521091253289776235602495678nat,
            ),
        g1(
                8586364274534577154894611080234048648883781955345622578531233113180532234842nat,
                21276134929883121123323359450658320820075698490666870487450985603988214349407nat,
            ),
        g1(
                4910628533171597675018724709631788948355422829499855033965018665300386637884nat,
                20532468890024084510431799098097081600480376127870299142189696620752500664302nat,
            ),
        g1(
                15335858102289947642505450692012116222827233918185150176888641903531542034017nat,
                5311597067667671581646709998171703828965875677637292315055030353779531404812nat,
            )
    ]
}

/// The fixed verifying key.
pub fn verifying_key() -> (vk: VerifyingKey)
    ensures
        vk.alpha_g1 == key_alpha(),
        vk.beta_g2 == key_beta(),
        vk.gamma_g2 == key_gamma(),
        vk.delta_g2 == key_delta(),
        vk.gamma_abc_g1@ == key_basis(),
{
    let alpha_g1 = G1Point::new(
            U256::from_words(
                0x2dbfc3ec_62a3eee5_a3b4b464_bcf1f852,
                0x7bbca12a_dea0f1f1_2033cd4f_61b0e091,
            ),
            U256::from_words(
                0x19e55bd0_b72c126d_a1866503_95567766,
                0x42ff82e2_f347f24f_cea2475f_4db087df,
            ),
            false,
        );
    let beta_g2 = G2Point::new(
            Fq2::new(
                U256::from_words(0x009f1bcd_c853f8e3_531756bb_625b0d1d, 0xc014f4ab_57c3f79f_4f4e2e7e_f7e0ead6),
                U256::from_words(0x1ae724ab_134e5a7c_6bd8a116_fa5505b2, 0x59522c0f_164a5e81_26e3ec7d_34465f6e),
            ),
            Fq2::new(
                U256::from_words(0x13ec7182_c9fd6833_1a10f8be_0fe885d7, 0x30de5c7f_89aa7d0b_7bafaa00_9bbc9e3e),
                U256::from_words(0x23a8ca57_60457e72_6365b92f_d0ceb486, 0x665797cd_68c35dcf_fd8e4ae8_066691e9),
            ),
            false,
        );
    let gamma_g2 = G2Point::new(
            Fq2::new(
                U256::from_words(0x1800deef_121f1e76_426a0066_5e5c4479, 0x674322d4_f75edadd_46debd5c_d992f6ed),
                U256::from_words(0x198e9393_920d483a_7260bfb7_31fb5d25, 0xf1aa4933_35a9e712_97e485b7_aef312c2),
            ),
            Fq2::new(
                U256::from_words(0x12c85ea5_db8c6deb_4aab7180_8dcb408f, 0xe3d1e769_0c43d37b_4ce6cc01_66fa7daa),
                U256::from_words(0x090689d0_585ff075_ec9e99ad_690c3395, 0xbc4b3133_70b38ef3_55acdadc_d122975b),
            ),
            false,
        );
    let delta_g2 = G2Point::new(
            Fq2::new(
                U256::from_words(0x00556502_356e37ed_150db2e3_6531b0f2, 0x75fd6835_c0fc1945_922e270b_48c48a86),
                U256::from_words(0x2f0c63d0_c53b3dfb_ca27b6b4_3ae7fbf5, 0x5a38d78a_21470996_485b0312_8accc208),
            ),
            Fq2::new(
                U256::from_words(0x194776b6_a53439d7_336f389d_2a8f6651, 0xe40885f5_ca2538b0_dc9cb534_fb23f7fa),
                U256::from_words(0x02644c27_b5dbd793_592a70b7_35e22c79, 0x8a5e309f_a17a992a_7dc2a050_e01b298f),
            ),
            false,
        );
    let mut gamma_abc_g1: Vec<G1Point> = Vec::new();
    gamma_abc_g1.push(
        G1Point::new(
                U256::from_words(
                    0x23df1bc9_165e9c1c_9b2bc036_d8ebdd10,
                    0xe7aeae7e_5e8019fd_e68aec7c_818bb23e,
                ),
                U256::from_words(
                    0x0b6c9208_0d37c5fb_2ddf3089_2a33665e,
                    0x5478432e_f3f71ac8_768ecbbe_62c77892,
                ),
                false,
            ),
    );
    gamma_abc_g1.push(
        G1Point::new(
                U256::from_words(
                    0x1c7b2adf_45e046ca_ea000956_b2ecb2d8,
                    0x617e710d_2a7bb201_a95ea276_f92307b4,
                ),
                U256::from_words(
                    0x2b15f075_36f45948_cf4abe65_96637d90,
                    0x2ffabb18_c8c2f5c1_51544c29_4ce4a672,
                ),
                false,
            ),
    );
    gamma_abc_g1.push(
        G1Point::new(
                U256::from_words(
                    0x1cecfe92_882a8c83_5a47bf01_bfa655cf,
                    0x628cbba7_f81cf404_2179fd13_edcd6a39,
                ),
                U256::from_words(
                    0x0154bfbb_2cb786ca_247d4b69_183d1751,
                    0xf267bbc7_656be8d0_f0e7a5a4_7e2c1101,
                ),
                false,
            ),
    );
    gamma_abc_g1.push(
        G1Point::new(
                U256::from_words(
                    0x1584616a_7423efcc_72f69ea8_4fa0b2bc,
                    0x01433677_297f4e83_51bebfc1_5bcd0cda,
                ),
                U256::from_words(
                    0x0623755b_1488526d_aa9fecf0_e11b110d,
                    0xd6df12c4_61579d79_2e1db65a_f523c8be,
                ),
                false,
            ),
    );
    gamma_abc_g1.push(
        G1Point::new(
                U256::from_words(
                    0x12fbb5bf_ca9d6135_7ba2d641_604cf485,
                    0x2e21ef54_faa180fe_539c1899_4dc1da5a,
                ),
                U256::from_words(
                    0x2f09dd99_72a1af5f_7bcfccf3_d7ab600c,
                    0x9d898ea6_d6933150_ba0ae228_ece17e5f,
                ),
                false,
            ),
    );
    gamma_abc_g1.push(
        G1Point::new(
                U256::from_words(
                    0x0adb5137_96fdf210_3022c641_51ce05f7,
                    0xc7a6d920_0e8d819f_a59e654f_c4bfe83c,
                ),
                U256::from_words(
                    0x2d64f72e_f4eddf9c_a032058e_d2bf6917,
                    0x58387e91_3a77cf99_d6a3cfb3_7c8ba7ee,
                ),
                false,
            ),
    );
    gamma_abc_g1.push(
        G1Point::new(
                U256::from_words(
                    0x21e7c9bf_fda74bfd_2c4393b6_803d7755,
                    0x45de6fa8_9145f4a2_3476241d_9881b661,
                ),
                U256::from_words(
                    0x0bbe41e5_2237ac13_eb7b01f3_cb999b73,
                    0x94d08734_e71b1c3a_da62713e_17eb560c,
                ),
                false,
            ),
    );
    proof {
        assert(gamma_abc_g1@ =~= key_basis());
    }
    VerifyingKey { alpha_g1, beta_g2, gamma_g2, delta_g2, gamma_abc_g1 }
}

/// The bytes that an optional byte vector holds.
pub open spec fn bytes_of(v: Option<Vec<u8>>) -> Option<Seq<u8>> {
    match v {
        Some(bytes) => Some(bytes@),
        None => None,
    }
}

/// The byte forms that a list of byte vectors holds.
pub open spec fn byte_forms(list: Seq<Vec<u8>>) -> Seq<Seq<u8>> {
    Seq::new(list.len(), |i: int| list[i]@)
}

/// The affine sum of two G1 points given in byte form, in byte form; `None`
/// where one of them is not the byte form of a point.
pub uninterp spec fn g1_sum(p: Seq<u8>, q: Seq<u8>) -> Option<Seq<u8>>;

/// The multiple of a G1 point by a scalar, both given in byte form, in byte
/// form; `None` where one of them is not the byte form of a point or of a
/// scalar.
pub uninterp spec fn g1_multiple(p: Seq<u8>, scalar: Seq<u8>) -> Option<Seq<u8>>;

/// The pairing of a G1 point with a G2 point, both given in byte form, in
/// the byte form of the target group; `None` where one of them is not the
/// byte form of a point or the Miller loop gives a value without inverse.
pub uninterp spec fn pairing(p: Seq<u8>, q: Seq<u8>) -> Option<Seq<u8>>;

/// The product of two elements of the target group given in byte form, in
/// byte form; `None` where one of them is not the byte form of an element.
pub uninterp spec fn gt_product(a: Seq<u8>, b: Seq<u8>) -> Option<Seq<u8>>;

/// `+=` of `ark_ec` on two affine points of `ark_bn254`'s G1. The points
/// are read and the sum is written with `FromBytes` and `ToBytes` of
/// `ark_ff`; the result depends on the two byte strings alone.
#[verifier::external_body]
fn g1_add(p: &[u8], q: &[u8]) -> (sum: Option<Vec<u8>>)
    ensures
        bytes_of(sum) == g1_sum(p@, q@),
{
    let mut sum = G1Affine::read(p).ok()?;
    sum += &G1Affine::read(q).ok()?;
    let mut bytes = Vec::new();
    sum.write(&mut bytes).ok()?;
    Some(bytes)
}

/// `AffineCurve::mul` of `ark_ec` on a point of G1 and the integer of a
/// scalar, brought back to affine form with `into_affine`. The result
/// depends on the two byte strings alone.
#[verifier::external_body]
fn g1_mul(p: &[u8], scalar: &[u8]) -> (multiple: Option<Vec<u8>>)
    ensures
        bytes_of(multiple) == g1_multiple(p@, scalar@),
{
    let point = G1Affine::read(p).ok()?;
    let factor = ark_bn254::Fr::read(scalar).ok()?;
    let multiple = point.mul(factor.into_repr()).into_affine();
    let mut bytes = Vec::new();
    multiple.write(&mut bytes).ok()?;
    Some(bytes)
}

/// The pairing of `ark_bn254`: `miller_loop` on the one pair, then
/// `final_exponentiation`, which gives nothing where the looped value has
/// no inverse. The result depends on the two byte strings alone.
#[verifier::external_body]
fn pair(p: &[u8], q: &[u8]) -> (value: Option<Vec<u8>>)
    ensures
        bytes_of(value) == pairing(p@, q@),
{
    let p = G1Affine::read(p).ok()?;
    let q = G2Affine::read(q).ok()?;
    let looped = Bn254::miller_loop(core::iter::once(&(p.into(), q.into())));
    let value = Bn254::final_exponentiation(&looped)?;
    let mut bytes = Vec::new();
    value.write(&mut bytes).ok()?;
    Some(bytes)
}

/// `*=` of `ark_ff` on two elements of `ark_bn254`'s `Fq12`. The result
/// depends on the two byte strings alone.
#[verifier::external_body]
fn gt_mul(a: &[u8], b: &[u8]) -> (product: Option<Vec<u8>>)
    ensures
        bytes_of(product) == gt_product(a@, b@),
{
    let mut product = Fq12::read(a).ok()?;
    product *= Fq12::read(b).ok()?;
    let mut bytes = Vec::new();
    product.write(&mut bytes).ok()?;
    Some(bytes)
}

/// The byte form of the unit of the target group: the twelve coordinates
/// one, zero, ..., zero.
pub open spec fn gt_one() -> Seq<u8> {
    Seq::new(384, |i: int| if i == 0 { 1u8 } else { 0u8 })
}

/// The product of the pairings of the first `count` pairs.
pub open spec fn pairing_product(ps: Seq<Seq<u8>>, qs: Seq<Seq<u8>>, count: nat) -> Option<Seq<u8>>
    decreases count,
{
    if count == 0 {
        Some(gt_one())
    } else {
        match pairing_product(ps, qs, (count - 1) as nat) {
            Some(acc) => match pairing(ps[count - 1], qs[count - 1]) {
                Some(value) => gt_product(acc, value),
                None => None,
            },
            None => None,
        }
    }
}

/// Whether the pairings of the points of `ps` with those of `qs`, as far as
/// both lists go, multiply to one.
pub open spec fn product_is_one(ps: Seq<Seq<u8>>, qs: Seq<Seq<u8>>) -> bool {
    let count = if ps.len() <= qs.len() {
        ps.len()
    } else {
        qs.len()
    };
    pairing_product(ps, qs, count) == Some(gt_one())
}

/// `basis[0] + inputs[0] * basis[1] + ... + inputs[count - 1] * basis[count]`
/// in byte form.
pub open spec fn combination(basis: Seq<G1Point>, inputs: Seq<nat>, count: nat) -> Option<Seq<u8>>
    decreases count,
{
    if count == 0 {
        g1_sum(G1Point::zero().encoding(), basis[0].encoding())
    } else {
        match combination(basis, inputs, (count - 1) as nat) {
            Some(acc) => match g1_multiple(
                basis[count as int].encoding(),
                le_bytes(inputs[count - 1], 32),
            ) {
                Some(term) => g1_sum(acc, term),
                None => None,
            },
            None => None,
        }
    }
}

/// Whether the verifier accepts `proof` for the public inputs: there are
/// six of them, and with `x` their combination over the basis of the key,
/// `e(-A, B) * e(alpha, beta) * e(x, gamma) * e(C, delta)` is one.
pub open spec fn accepts(proof: Proof, inputs: Seq<nat>) -> bool {
    inputs.len() == 6 && match combination(key_basis(), inputs, 6) {
        Some(x) => product_is_one(
            seq![proof.a.negation().encoding(), key_alpha().encoding(), x, proof.c.encoding()],
            seq![
                proof.b.encoding(),
                key_beta().encoding(),
                key_gamma().encoding(),
                key_delta().encoding(),
            ],
        ),
        None => false,
    }
}

/// Whether two byte strings are the same.
fn same_bytes(a: &Vec<u8>, b: &Vec<u8>) -> (same: bool)
    ensures
        same == (a@ == b@),
{
    if a.len() != b.len() {
        return false;
    }
    let mut i: usize = 0;
    while i < a.len()
        invariant
            a@.len() == b@.len(),
            i <= a@.len(),
            forall|j: int| 0 <= j < i ==> a@[j] == b@[j],
        decreases a@.len() - i,
    {
        if a[i] != b[i] {
            return false;
        }
        i += 1;
    }
    assert(a@ =~= b@);
    true
}

/// The unit of the target group in byte form.
fn gt_unit() -> (unit: Vec<u8>)
    ensures
        unit@ == gt_one(),
{
    let mut unit: Vec<u8> = Vec::new();
    unit.push(1u8);
    while unit.len() < 384
        invariant
            1 <= unit@.len() <= 384,
            forall|j: int| 0 <= j < unit@.len() ==> unit@[j] == if j == 0 { 1u8 } else { 0u8 },
        decreases 384 - unit@.len(),
    {
        unit.push(0u8);
    }
    assert(unit@ =~= gt_one());
    unit
}

/// Whether the pairings of the points of `ps` with those of `qs`, all in
/// byte form, multiply to one. A pair that is no pair of points, or has no
/// pairing, makes the answer `false`.
pub fn pairing_product_is_one(ps: &Vec<Vec<u8>>, qs: &Vec<Vec<u8>>) -> (ok: bool)
    ensures
        ok == product_is_one(byte_forms(ps@), byte_forms(qs@)),
{
    let count = if ps.len() <= qs.len() {
        ps.len()
    } else {
        qs.len()
    };
    let unit = gt_unit();
    let mut acc = gt_unit();
    let mut i: usize = 0;
    while i < count
        invariant
            i <= count,
            count == if ps@.len() <= qs@.len() {
                ps@.len()
            } else {
                qs@.len()
            },
            unit@ == gt_one(),
            pairing_product(byte_forms(ps@), byte_forms(qs@), i as nat) == Some(acc@),
        decreases count - i,
    {
        let value = match pair(ps[i].as_slice(), qs[i].as_slice()) {
            Some(value) => value,
            None => {
                proof {
                    lemma_product_stays_none(byte_forms(ps@), byte_forms(qs@), (i + 1) as nat, count as nat);
                }
                return false;
            },
        };
        acc = match gt_mul(acc.as_slice(), value.as_slice()) {
            Some(product) => product,
            None => {
                proof {
                    lemma_product_stays_none(byte_forms(ps@), byte_forms(qs@), (i + 1) as nat, count as nat);
                }
                return false;
            },
        };
        i += 1;
    }
    same_bytes(&acc, &unit)
}

/// Once the product of the first pairings is undefined, so is every longer one.
proof fn lemma_product_stays_none(ps: Seq<Seq<u8>>, qs: Seq<Seq<u8>>, from: nat, to: nat)
    requires
        from <= to,
        pairing_product(ps, qs, from).is_none(),
    ensures
        pairing_product(ps, qs, to).is_none(),
    decreases to - from,
{
    if from < to {
        lemma_product_stays_none(ps, qs, from, (to - 1) as nat);
    }
}

/// The byte forms of a list of G1 points.
pub open spec fn g1_forms(points: Seq<G1Point>) -> Seq<Seq<u8>> {
    Seq::new(points.len(), |i: int| points[i].encoding())
}

/// The byte forms of a list of G2 points.
pub open spec fn g2_forms(points: Seq<G2Point>) -> Seq<Seq<u8>> {
    Seq::new(points.len(), |i: int| points[i].encoding())
}

/// Whether the pairings of the points of `ps` with those of `qs`, as far as
/// both lists go, multiply to one.
pub fn pcs(ps: &[G1Point], qs: &[G2Point]) -> (ok: bool)
    ensures
        ok == product_is_one(g1_forms(ps@), g2_forms(qs@)),
{
    let mut left: Vec<Vec<u8>> = Vec::new();
    let mut i: usize = 0;
    while i < ps.len()
        invariant
            i <= ps@.len(),
            left@.len() == i,
            forall|j: int| 0 <= j < i ==> (#[trigger] left@[j])@ == ps@[j].encoding(),
        decreases ps@.len() - i,
    {
        left.push(ps[i].encode());
        i += 1;
    }
    let mut right: Vec<Vec<u8>> = Vec::new();
    let mut k: usize = 0;
    while k < qs.len()
        invariant
            k <= qs@.len(),
            right@.len() == k,
            forall|j: int| 0 <= j < k ==> (#[trigger] right@[j])@ == qs@[j].encoding(),
        decreases qs@.len() - k,
    {
        right.push(qs[k].encode());
        k += 1;
    }
    proof {
        assert(byte_forms(left@) =~= g1_forms(ps@));
        assert(byte_forms(right@) =~= g2_forms(qs@));
    }
    pairing_product_is_one(&left, &right)
}

/// The combination of the public inputs over the basis of the key.
fn combine_inputs(vk: &VerifyingKey, input: &[Fr]) -> (x: Option<Vec<u8>>)
    requires
        input@.len() == 6,
        vk.gamma_abc_g1@.len() == 7,
    ensures
        bytes_of(x) == combination(vk.gamma_abc_g1@, scalars(input@), 6),
{
    let zero = G1Point::new(U256::new(0), U256::new(1), true);
    let mut acc = match g1_add(zero.encode().as_slice(), vk.gamma_abc_g1[0].encode().as_slice()) {
        Some(acc) => acc,
        None => {
            proof {
                lemma_combination_stays_none(vk.gamma_abc_g1@, scalars(input@), 0, 6);
            }
            return None;
        },
    };
    let mut i: usize = 0;
    while i < 6
        invariant
            i <= 6,
            input@.len() == 6,
            vk.gamma_abc_g1@.len() == 7,
            combination(vk.gamma_abc_g1@, scalars(input@), i as nat) == Some(acc@),
        decreases 6 - i,
    {
        let scalar = to_le_bytes(input[i].value());
        let term = match g1_mul(vk.gamma_abc_g1[i + 1].encode().as_slice(), scalar.as_slice()) {
            Some(term) => term,
            None => {
                proof {
                    lemma_combination_stays_none(vk.gamma_abc_g1@, scalars(input@), (i + 1) as nat, 6);
                }
                return None;
            },
        };
        acc = match g1_add(acc.as_slice(), term.as_slice()) {
            Some(sum) => sum,
            None => {
                proof {
                    lemma_combination_stays_none(vk.gamma_abc_g1@, scalars(input@), (i + 1) as nat, 6);
                }
                return None;
            },
        };
        i += 1;
    }
    Some(acc)
}

/// Once the combination of the first inputs is undefined, so is every longer one.
proof fn lemma_combination_stays_none(basis: Seq<G1Point>, inputs: Seq<nat>, from: nat, to: nat)
    requires
        from <= to,
        combination(basis, inputs, from).is_none(),
    ensures
        combination(basis, inputs, to).is_none(),
    decreases to - from,
{
    if from < to {
        lemma_combination_stays_none(basis, inputs, from, (to - 1) as nat);
    }
}

/// Checks `proof` against the fixed key and the public inputs. Anything but
/// six inputs, a point that is none, or a product other than one is a
/// rejection.
pub fn verify_proof(proof: Proof, input: &[Fr]) -> (ok: bool)
    ensures
        ok == accepts(proof, scalars(input@)),
{
    if input.len() != 6 {
        return false;
    }
    let vk = verifying_key();
    let x = match combine_inputs(&vk, input) {
        Some(x) => x,
        None => {
            return false;
        },
    };
    let mut ps: Vec<Vec<u8>> = Vec::new();
    ps.push(proof.a.neg().encode());
    ps.push(vk.alpha_g1.encode());
    ps.push(x);
    ps.push(proof.c.encode());
    let mut qs: Vec<Vec<u8>> = Vec::new();
    qs.push(proof.b.encode());
    qs.push(vk.beta_g2.encode());
    qs.push(vk.gamma_g2.encode());
    qs.push(vk.delta_g2.encode());
    proof {
        assert(byte_forms(ps@) =~= seq![
            proof.a.negation().encoding(),
            key_alpha().encoding(),
            x@,
            proof.c.encoding(),
        ]);
        assert(byte_forms(qs@) =~= seq![
            proof.b.encoding(),
            key_beta().encoding(),
            key_gamma().encoding(),
            key_delta().encoding(),
        ]);
    }
    pairing_product_is_one(&ps, &qs)
}

} // verus!
