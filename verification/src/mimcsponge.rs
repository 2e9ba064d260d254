//! The MiMC sponge permutation over the BN254 scalar field, with the round
//! constants that a Keccak-256 chain over a fixed seed yields.

use crate::uint::{be_value, from_be_bytes, rem, U256};
use crate::utils::{addmod, field_modulus, field_size, mod_pow};
use tiny_keccak::{Hasher, Keccak};
use vstd::arithmetic::div_mod::lemma_mod_bound;
use vstd::arithmetic::power::pow;
use vstd::prelude::*;

verus! {

/// The number of rounds of the permutation.
pub const ROUNDS: usize = 220;

/// The Keccak-256 digest of `data`.
pub uninterp spec fn keccak256(data: Seq<u8>) -> Seq<u8>;

/// `tiny_keccak::Keccak::v256`, fed `data` once and finalized: the digest is
/// a function of the input alone and fills the 32 bytes handed to `finalize`.
#[verifier::external_body]
fn keccak256_digest(data: &[u8]) -> (digest: Vec<u8>)
    ensures
        digest@ == keccak256(data@),
        digest@.len() == 32,
{
    let mut hasher = Keccak::v256();
    hasher.update(data);
    let mut output = [0u8; 32];
    hasher.finalize(&mut output);
    output.to_vec()
}

/// The seed of the constant chain: the ASCII bytes of `mimcsponge`.
pub open spec fn seed() -> Seq<u8> {
    seq![109u8, 105u8, 109u8, 99u8, 115u8, 112u8, 111u8, 110u8, 103u8, 101u8]
}

/// The seed hashed `i + 1` times.
pub open spec fn constant_chain(i: nat) -> Seq<u8>
    decreases i,
{
    if i == 0 {
        keccak256(seed())
    } else {
        keccak256(constant_chain((i - 1) as nat))
    }
}

/// The constant of round `i`: zero in the first and in the last round, else
/// link `i` of the chain, read most significant byte first and reduced.
pub open spec fn round_constant(i: nat) -> nat {
    if i == 0 || i + 1 >= ROUNDS {
        0
    } else {
        be_value(constant_chain(i)) % field_size()
    }
}

/// `t^5` in the field.
pub open spec fn fifth_power(t: nat) -> nat {
    (pow(t as int, 5) % (field_size() as int)) as nat
}

/// Round `i` on the state `(left, right)`. The last round leaves the left
/// half in place and mixes into the right half; every other round mixes and
/// swaps.
pub open spec fn round(state: (nat, nat), i: nat) -> (nat, nat) {
    let t = (state.0 + round_constant(i)) % field_size();
    let mixed = (state.1 + fifth_power(t)) % field_size();
    if i + 1 < ROUNDS {
        (mixed, state.0)
    } else {
        (state.0, mixed)
    }
}

/// The state after the first `n` rounds.
pub open spec fn rounds(state: (nat, nat), n: nat) -> (nat, nat)
    decreases n,
{
    if n == 0 {
        state
    } else {
        round(rounds(state, (n - 1) as nat), (n - 1) as nat)
    }
}

/// The whole permutation.
pub open spec fn permutation(left: nat, right: nat) -> (nat, nat) {
    rounds((left, right), ROUNDS as nat)
}

/// The two-to-one hash: absorb `left`, permute, absorb `right`, permute,
/// and squeeze the left half.
pub open spec fn hash_left_right(left: nat, right: nat) -> nat {
    let first = permutation(left, 0);
    permutation((first.0 + right) % field_size(), first.1).0
}

/// Both halves of a permuted state are field elements.
pub proof fn lemma_permutation_in_field(left: nat, right: nat)
    ensures
        permutation(left, right).0 < field_size(),
        permutation(left, right).1 < field_size(),
{
    let start = (left, right);
    let n = (ROUNDS - 2) as nat;
    assert(rounds(start, (n + 2) as nat) == round(rounds(start, (n + 1) as nat), (n + 1) as nat));
    assert(rounds(start, (n + 1) as nat) == round(rounds(start, n), n));
    let before = rounds(start, n);
    let t = (before.0 + round_constant(n)) % field_size();
    lemma_mod_bound((before.1 + fifth_power(t)) as int, field_size() as int);
    let last = rounds(start, (n + 1) as nat);
    let u = (last.0 + round_constant((n + 1) as nat)) % field_size();
    lemma_mod_bound((last.1 + fifth_power(u)) as int, field_size() as int);
}

/// Every hash is a field element.
pub proof fn lemma_hash_in_field(left: nat, right: nat)
    ensures
        hash_left_right(left, right) < field_size(),
{
    let first = permutation(left, 0);
    lemma_permutation_in_field((first.0 + right) % field_size(), first.1);
}

/// The permutation together with its round constants.
pub struct MimcSponge {
    constants: Vec<U256>,
}

impl MimcSponge {
    #[verifier::type_invariant]
    spec fn well_formed(self) -> bool {
        &&& self.constants@.len() == ROUNDS
        &&& forall|i: int| 0 <= i < ROUNDS ==> (#[trigger] self.constants@[i])@ == round_constant(i as nat)
    }

    /// The round constants that the sponge holds.
    pub closed spec fn constants(&self) -> Seq<nat> {
        Seq::new(self.constants@.len(), |i: int| self.constants@[i]@)
    }

    /// Derives the round constants from the seed.
    pub fn new() -> (sponge: MimcSponge)
        ensures
            sponge.constants() == Seq::new(ROUNDS as nat, |i: int| round_constant(i as nat)),
    {
        let p = field_modulus();
        let seed_bytes: [u8; 10] = [109, 105, 109, 99, 115, 112, 111, 110, 103, 101];
        let mut digest = keccak256_digest(seed_bytes.as_slice());
        assert(seed_bytes@ =~= seed());
        let mut constants: Vec<U256> = Vec::new();
        constants.push(U256::new(0));
        let mut i: usize = 1;
        while i + 1 < ROUNDS
            invariant
                1 <= i < ROUNDS,
                p@ == field_size(),
                digest@ == constant_chain((i - 1) as nat),
                digest@.len() == 32,
                constants@.len() == i,
                forall|j: int| 0 <= j < i ==> (#[trigger] constants@[j])@ == round_constant(j as nat),
            decreases ROUNDS - i,
        {
            digest = keccak256_digest(digest.as_slice());
            let constant = rem(from_be_bytes(digest.as_slice()), p);
            constants.push(constant);
            i += 1;
        }
        constants.push(U256::new(0));
        let sponge = MimcSponge { constants };
        assert(sponge.constants() =~= Seq::new(ROUNDS as nat, |i: int| round_constant(i as nat)));
        sponge
    }

    /// Permutes the state `(left, right)`.
    pub fn mimcsponge(&self, left: U256, right: U256) -> (state: (U256, U256))
        ensures
            (state.0@, state.1@) == permutation(left@, right@),
    {
        proof {
            use_type_invariant(self);
        }
        let p = field_modulus();
        let five = U256::new(5);
        let mut l = left;
        let mut r = right;
        let mut i: usize = 0;
        while i < ROUNDS
            invariant
                i <= ROUNDS,
                p@ == field_size(),
                five@ == 5,
                self.constants@.len() == ROUNDS,
                forall|j: int|
                    0 <= j < ROUNDS ==> (#[trigger] self.constants@[j])@ == round_constant(j as nat),
                (l@, r@) == rounds((left@, right@), i as nat),
            decreases ROUNDS - i,
        {
            let t = addmod(&l, &self.constants[i], &p);
            let t5 = mod_pow(&t, &five, &p);
            let mixed = addmod(&r, &t5, &p);
            if i + 1 < ROUNDS {
                r = l;
                l = mixed;
            } else {
                r = mixed;
            }
            i += 1;
        }
        (l, r)
    }
}

} // verus!
