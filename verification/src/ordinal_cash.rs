//! The pool: deposits of commitments into the tree, and withdrawals against
//! a remembered root, a fresh nullifier and a proof.

use crate::field_set::FieldSet;
use crate::merkle_tree::{MerkleTreeWithHistory, TreeModel};
use crate::pairing::{accepts, scalars, verify_proof, Fr, Proof};
use crate::uint::{Address, U256};
use crate::utils::{field_modulus, field_size};
use vstd::prelude::*;

verus! {

/// The withdrawal names a nullifier that an earlier withdrawal spent.
pub const NOTE_SPENT: &'static str = "The note has been already spent";

/// The withdrawal names a root that the tree does not remember.
pub const UNKNOWN_ROOT: &'static str = "Cannot find your merkle root";

/// A public input of the withdrawal is no element of the scalar field.
pub const UNREADABLE_INPUT: &'static str = "cannot read bytes";

/// The verifier rejects the proof of the withdrawal.
pub const INVALID_PROOF: &'static str = "Invalid withdraw proof";

/// What the pool tells its surroundings after each accepted operation. The
/// pool has committed its own state before it calls, and does not look at
/// what the sink does. Whether the fee fits the denomination is the sink's
/// to decide.
pub trait Ordinal: Sized {
    /// What hearing of a deposit does to the sink: how the sink after the
    /// call relates to the sink before it. Each sink says this of itself;
    /// one that says nothing promises nothing.
    open spec fn heard_deposit(before: Self, after: Self, commitment: U256, inserted_index: usize) -> bool {
        true
    }

    /// What hearing of a withdrawal does to the sink.
    open spec fn heard_withdrawal(
        before: Self,
        after: Self,
        recipient: Address,
        relayer: Address,
        fee: U256,
        refund: U256,
    ) -> bool {
        true
    }

    fn process_deposit(&mut self, commitment: U256, inserted_index: usize)
        ensures
            Self::heard_deposit(*old(self), *final(self), commitment, inserted_index),
    ;

    fn process_withdraw(&mut self, recipient: Address, relayer: Address, fee: U256, refund: U256)
        ensures
            Self::heard_withdrawal(*old(self), *final(self), recipient, relayer, fee, refund),
    ;
}

/// A sink that does nothing.
pub struct SplOrdinal;

impl Ordinal for SplOrdinal {
    open spec fn heard_deposit(before: Self, after: Self, commitment: U256, inserted_index: usize) -> bool {
        after == before
    }

    open spec fn heard_withdrawal(
        before: Self,
        after: Self,
        recipient: Address,
        relayer: Address,
        fee: U256,
        refund: U256,
    ) -> bool {
        after == before
    }

    fn process_deposit(&mut self, commitment: U256, inserted_index: usize) {
    }

    fn process_withdraw(&mut self, recipient: Address, relayer: Address, fee: U256, refund: U256) {
    }
}

/// The pool as numbers: the tree, the commitments deposited and the
/// nullifiers spent.
pub struct PoolModel {
    pub tree: TreeModel,
    pub commitments: Set<nat>,
    pub nullifiers: Set<nat>,
}

/// The public inputs of a withdrawal in the order of the circuit.
pub open spec fn public_inputs(
    root: nat,
    nullifier_hash: nat,
    recipient: nat,
    relayer: nat,
    fee: nat,
    refund: nat,
) -> Seq<nat> {
    seq![root, nullifier_hash, recipient, relayer, fee, refund]
}

/// Whether every input is an element of the scalar field.
pub open spec fn readable(inputs: Seq<nat>) -> bool {
    forall|i: int| 0 <= i < inputs.len() ==> inputs[i] < field_size()
}

impl PoolModel {
    /// The pool over an empty tree of depth `levels`.
    pub open spec fn empty(levels: nat) -> PoolModel {
        PoolModel { tree: TreeModel::empty(levels), commitments: Set::empty(), nullifiers: Set::empty() }
    }

    /// Whether the pool takes `commitment`: it is a field element, was not
    /// deposited before, and the tree has room.
    pub open spec fn accepts_deposit(self, commitment: nat) -> bool {
        commitment < field_size() && !self.commitments.contains(commitment) && !self.tree.is_full()
    }

    /// The pool after a deposit of `commitment` was asked for.
    pub open spec fn deposit(self, commitment: nat) -> PoolModel {
        if self.accepts_deposit(commitment) {
            PoolModel {
                tree: self.tree.insert(commitment),
                commitments: self.commitments.insert(commitment),
                nullifiers: self.nullifiers,
            }
        } else {
            self
        }
    }

    /// The verdict on a withdrawal. The checks come in this order: the
    /// nullifier is fresh, the root is remembered, the inputs are scalars,
    /// the proof is accepted.
    pub open spec fn withdrawal(self, proof: Proof, inputs: Seq<nat>) -> Result<(), &'static str> {
        if self.nullifiers.contains(inputs[1]) {
            Err(NOTE_SPENT)
        } else if !self.tree.knows(inputs[0]) {
            Err(UNKNOWN_ROOT)
        } else if !readable(inputs) {
            Err(UNREADABLE_INPUT)
        } else if !accepts(proof, inputs) {
            Err(INVALID_PROOF)
        } else {
            Ok(())
        }
    }

    /// The pool after a withdrawal was asked for.
    pub open spec fn withdraw(self, proof: Proof, inputs: Seq<nat>) -> PoolModel {
        if self.withdrawal(proof, inputs).is_ok() {
            PoolModel {
                tree: self.tree,
                commitments: self.commitments,
                nullifiers: self.nullifiers.insert(inputs[1]),
            }
        } else {
            self
        }
    }
}

/// The scalar with the value `e`; an error where `e` is no element of the
/// scalar field.
pub fn to_fr(e: &U256) -> (r: Result<Fr, &'static str>)
    ensures
        e@ < field_size() ==> r.is_ok() && r.unwrap()@ == e@,
        e@ >= field_size() ==> r == Err::<Fr, &'static str>(UNREADABLE_INPUT),
{
    match Fr::from_u256(e) {
        Some(scalar) => Ok(scalar),
        None => Err(UNREADABLE_INPUT),
    }
}

pub struct OrdinalCash<O: Ordinal> {
    pub mt: MerkleTreeWithHistory,
    commitments: FieldSet,
    nullifier_hashes: FieldSet,
    o: O,
}

impl<O: Ordinal> OrdinalCash<O> {
    /// The commitments deposited so far.
    pub closed spec fn commitments(&self) -> Set<nat> {
        self.commitments@
    }

    /// The nullifiers spent so far.
    pub closed spec fn nullifiers(&self) -> Set<nat> {
        self.nullifier_hashes@
    }

    /// The sink.
    pub closed spec fn sink(&self) -> O {
        self.o
    }

    /// The pool as numbers.
    pub closed spec fn view(&self) -> PoolModel {
        PoolModel { tree: self.mt@, commitments: self.commitments(), nullifiers: self.nullifiers() }
    }

    /// What every pool that `new` made satisfies, as long as its tree is
    /// changed through the pool alone.
    pub closed spec fn wf(&self) -> bool {
        self.mt.wf()
    }

    /// An empty pool over a tree of depth `levels`, with the sink `o`.
    pub fn new(levels: u32, o: O) -> (pool: Self)
        requires
            0 < levels < 32,
        ensures
            pool.wf(),
            pool@ == PoolModel::empty(levels as nat),
            pool.sink() == o,
    {
        let mt = MerkleTreeWithHistory::new(levels);
        let commitments = FieldSet::new();
        let nullifier_hashes = FieldSet::new();
        Self { mt, commitments, nullifier_hashes, o }
    }

    /// The pool's own part of a deposit: where the pool takes the
    /// commitment, it goes into the tree and into the set of commitments,
    /// and the result is its index in the tree. Else nothing changes.
    pub fn record_deposit(&mut self, commitment: U256) -> (index: Option<usize>)
        requires
            old(self).wf(),
        ensures
            final(self).wf(),
            final(self)@ == old(self)@.deposit(commitment@),
            final(self).sink() == old(self).sink(),
            old(self)@.accepts_deposit(commitment@) ==> index.is_some() && index.unwrap() == old(
                self,
            )@.tree.next_index,
            !old(self)@.accepts_deposit(commitment@) ==> index.is_none(),
    {
        if !commitment.lt(&field_modulus()) || self.commitments.contains(&commitment) {
            return None;
        }
        let inserted_index = match self.mt.insert(commitment) {
            Some(index) => index,
            None => {
                return None;
            },
        };
        self.commitments.insert(commitment);
        Some(inserted_index)
    }

    /// Deposits `commitment`: `None` without any change where it is no field
    /// element, was deposited before or the tree is full. Else the pool
    /// records it and then hands the commitment and its index to the sink.
    pub fn deposit(&mut self, commitment: U256) -> (r: Option<()>)
        requires
            old(self).wf(),
        ensures
            final(self).wf(),
            final(self)@ == old(self)@.deposit(commitment@),
            r.is_some() == old(self)@.accepts_deposit(commitment@),
            r.is_some() ==> O::heard_deposit(
                old(self).sink(),
                final(self).sink(),
                commitment,
                old(self)@.tree.next_index as usize,
            ),
            r.is_none() ==> final(self).sink() == old(self).sink(),
    {
        match self.record_deposit(commitment) {
            Some(inserted_index) => {
                self.o.process_deposit(commitment, inserted_index);
                assert(O::heard_deposit(old(self).sink(), self.sink(), commitment, inserted_index));
                Some(())
            },
            None => None,
        }
    }

    /// The end of a withdrawal whose nullifier is fresh, whose root is
    /// remembered and whose inputs are scalars: an accepted proof spends the
    /// nullifier, a rejected one changes nothing.
    pub fn record_withdrawal(&mut self, nullifier_hash: U256, accepted: bool) -> (r: Result<
        (),
        &'static str,
    >)
        ensures
            old(self).wf() ==> final(self).wf(),
            final(self).sink() == old(self).sink(),
            final(self)@.tree == old(self)@.tree,
            final(self)@.commitments == old(self)@.commitments,
            accepted ==> r.is_ok() && final(self)@.nullifiers == old(self)@.nullifiers.insert(
                nullifier_hash@,
            ),
            !accepted ==> r == Err::<(), &'static str>(INVALID_PROOF) && final(self)@.nullifiers == old(
                self,
            )@.nullifiers,
    {
        if !accepted {
            Err(INVALID_PROOF)
        } else {
            self.nullifier_hashes.insert(nullifier_hash);
            Ok(())
        }
    }

    /// Withdraws against `root` with the nullifier `nh`. Each rejection
    /// leaves the pool as it was. After an accepted proof the pool spends
    /// the nullifier and then hands recipient, relayer, fee and refund to
    /// the sink.
    #[verifier::loop_isolation(false)]
    pub fn withdraw(
        &mut self,
        proof: Proof,
        root: U256,
        nh: U256,
        recipient: Address,
        relayer: Address,
        fee: U256,
        refund: U256,
    ) -> (r: Result<(), &'static str>)
        requires
            old(self).wf(),
        ensures
            final(self).wf(),
            r == old(self)@.withdrawal(
                proof,
                public_inputs(root@, nh@, recipient@, relayer@, fee@, refund@),
            ),
            final(self)@ == old(self)@.withdraw(
                proof,
                public_inputs(root@, nh@, recipient@, relayer@, fee@, refund@),
            ),
            r.is_ok() ==> O::heard_withdrawal(
                old(self).sink(),
                final(self).sink(),
                recipient,
                relayer,
                fee,
                refund,
            ),
            r.is_err() ==> final(self).sink() == old(self).sink(),
    {
        let ghost inputs = public_inputs(root@, nh@, recipient@, relayer@, fee@, refund@);
        if self.nullifier_hashes.contains(&nh) {
            return Err(NOTE_SPENT);
        }
        if !self.mt.is_known_root(root) {
            return Err(UNKNOWN_ROOT);
        }
        let values = [root, nh, recipient, relayer, fee, refund];
        let mut input: Vec<Fr> = Vec::new();
        let mut i: usize = 0;
        while i < 6
            invariant
                i <= 6,
                input@.len() == i,
                forall|j: int| 0 <= j < 6 ==> (#[trigger] values@[j])@ == inputs[j],
                inputs.len() == 6,
                forall|j: int| 0 <= j < i ==> (#[trigger] input@[j])@ == inputs[j] && inputs[j] < field_size(),
            decreases 6 - i,
        {
            let value = values[i];
            assert(value@ == inputs[i as int]);
            match to_fr(&value) {
                Ok(scalar) => {
                    assert(scalar@ == inputs[i as int] && inputs[i as int] < field_size());
                    input.push(scalar);
                },
                Err(e) => {
                    assert(inputs[i as int] >= field_size());
                    return Err(e);
                },
            }
            i += 1;
        }
        proof {
            assert(scalars(input@) =~= inputs);
        }
        let accepted = verify_proof(proof, input.as_slice());
        match self.record_withdrawal(nh, accepted) {
            Ok(()) => {
                self.o.process_withdraw(recipient, relayer, fee, refund);
                Ok(())
            },
            Err(e) => Err(e),
        }
    }
}

/// A commitment that the pool holds is refused, and the refusal leaves the
/// pool as it was, the size of its tree included. So a commitment that was
/// taken once is refused when it comes again.
pub proof fn lemma_duplicate_deposit(pool: PoolModel, commitment: nat)
    ensures
        pool.commitments.contains(commitment) ==> !pool.accepts_deposit(commitment) && pool.deposit(
            commitment,
        ) == pool,
        pool.accepts_deposit(commitment) ==> !pool.deposit(commitment).accepts_deposit(commitment)
            && pool.deposit(commitment).deposit(commitment).tree.next_index == pool.deposit(
            commitment,
        ).tree.next_index,
{
}

/// No operation takes a commitment or a nullifier out of the pool.
pub proof fn lemma_sets_grow(pool: PoolModel, commitment: nat, proof: Proof, inputs: Seq<nat>)
    ensures
        pool.commitments.subset_of(pool.deposit(commitment).commitments),
        pool.nullifiers == pool.deposit(commitment).nullifiers,
        pool.commitments == pool.withdraw(proof, inputs).commitments,
        pool.nullifiers.subset_of(pool.withdraw(proof, inputs).nullifiers),
{
}

/// A withdrawal with a spent nullifier, with an unknown root or with a
/// proof that the verifier rejects fails and changes nothing. Whatever is
/// asked next gets the verdict that it would have got before: a withdrawal
/// that was good stays good.
pub proof fn lemma_rejected_withdrawal(
    pool: PoolModel,
    proof: Proof,
    inputs: Seq<nat>,
    next_proof: Proof,
    next_inputs: Seq<nat>,
)
    requires
        pool.nullifiers.contains(inputs[1]) || !pool.tree.knows(inputs[0]) || !accepts(proof, inputs),
    ensures
        pool.withdrawal(proof, inputs).is_err(),
        pool.withdraw(proof, inputs) == pool,
        pool.withdraw(proof, inputs).withdrawal(next_proof, next_inputs) == pool.withdrawal(
            next_proof,
            next_inputs,
        ),
{
}

/// An accepted withdrawal spends its nullifier only: a withdrawal with
/// another nullifier gets the verdict that it would have got before.
pub proof fn lemma_fresh_nullifier(
    pool: PoolModel,
    proof: Proof,
    inputs: Seq<nat>,
    next_proof: Proof,
    next_inputs: Seq<nat>,
)
    requires
        next_inputs[1] != inputs[1],
    ensures
        pool.withdraw(proof, inputs).withdrawal(next_proof, next_inputs) == pool.withdrawal(
            next_proof,
            next_inputs,
        ),
{
}

/// After an accepted withdrawal, every withdrawal with the same nullifier
/// is refused as spent, the same proof and inputs included.
pub proof fn lemma_replay_rejected(
    pool: PoolModel,
    proof: Proof,
    inputs: Seq<nat>,
    next_proof: Proof,
    next_inputs: Seq<nat>,
)
    requires
        pool.withdrawal(proof, inputs).is_ok(),
        next_inputs[1] == inputs[1],
    ensures
        pool.withdraw(proof, inputs).withdrawal(proof, inputs) == Err::<(), &'static str>(NOTE_SPENT),
        pool.withdraw(proof, inputs).withdrawal(next_proof, next_inputs) == Err::<(), &'static str>(
            NOTE_SPENT,
        ),
        pool.withdraw(proof, inputs).withdraw(next_proof, next_inputs) == pool.withdraw(proof, inputs),
{
}

} // verus!
