//! An incremental Merkle tree of fixed depth that remembers its last
//! hundred roots.

use crate::mimcsponge::{hash_left_right, lemma_hash_in_field, MimcSponge};
use crate::uint::U256;
use crate::utils::{addmod, field_modulus, field_size, zero_leaf, zero_value};
use vstd::arithmetic::power2::{lemma2_to64, lemma_pow2_strictly_increases, lemma_pow2_unfold, pow2};
use vstd::prelude::*;

verus! {

/// How many roots the tree remembers.
pub const ROOT_HISTORY_SIZE: usize = 100;

/// The root of an empty subtree of height `level`.
pub open spec fn zero_at(level: nat) -> nat
    decreases level,
{
    if level == 0 {
        zero_value()
    } else {
        hash_left_right(zero_at((level - 1) as nat), zero_at((level - 1) as nat))
    }
}

/// The roots of empty subtrees are field elements.
pub proof fn lemma_zero_in_field(level: nat)
    ensures
        zero_at(level) < field_size(),
{
    if level > 0 {
        lemma_hash_in_field(zero_at((level - 1) as nat), zero_at((level - 1) as nat));
    }
}

/// The tree as numbers: its depth, the last left sibling written at each
/// level, the number of leaves, the ring of remembered roots and the
/// position of the latest root in it.
pub struct TreeModel {
    pub levels: nat,
    pub filled: Seq<nat>,
    pub next_index: nat,
    pub roots: Seq<nat>,
    pub current_root_index: nat,
}

/// The walk from a leaf to the root. At `level` the node `hash` has the
/// position `index` among the nodes of its level: an even node becomes the
/// remembered left sibling and is paired with an empty right subtree, an odd
/// node is paired with the remembered left sibling. Gives the siblings and
/// the root after the walk.
pub open spec fn climb(filled: Seq<nat>, index: nat, hash: nat, level: nat, levels: nat) -> (
    Seq<nat>,
    nat,
)
    decreases levels - level,
{
    if level >= levels {
        (filled, hash)
    } else if index % 2 == 0 {
        climb(
            filled.update(level as int, hash),
            index / 2,
            hash_left_right(hash, zero_at(level)),
            level + 1,
            levels,
        )
    } else {
        climb(filled, index / 2, hash_left_right(filled[level as int], hash), level + 1, levels)
    }
}

impl TreeModel {
    /// The tree of depth `levels` without leaves.
    pub open spec fn empty(levels: nat) -> TreeModel {
        TreeModel {
            levels,
            filled: Seq::new(levels, |i: int| zero_at(i as nat)),
            next_index: 0,
            roots: Seq::new(
                ROOT_HISTORY_SIZE as nat,
                |i: int|
                    if i == 0 {
                        hash_left_right(zero_at((levels - 1) as nat), zero_at((levels - 1) as nat))
                    } else {
                        0nat
                    },
            ),
            current_root_index: 0,
        }
    }

    /// The number of leaves that the tree takes.
    pub open spec fn capacity(self) -> nat {
        pow2(self.levels)
    }

    pub open spec fn is_full(self) -> bool {
        self.next_index == self.capacity()
    }

    /// The root that the next insertion of `leaf` commits.
    pub open spec fn root_with(self, leaf: nat) -> nat {
        climb(self.filled, self.next_index, leaf, 0, self.levels).1
    }

    /// The tree after the insertion of `leaf`, where it is not full.
    pub open spec fn insert(self, leaf: nat) -> TreeModel {
        let cursor = (self.current_root_index + 1) % (ROOT_HISTORY_SIZE as nat);
        TreeModel {
            levels: self.levels,
            filled: climb(self.filled, self.next_index, leaf, 0, self.levels).0,
            next_index: self.next_index + 1,
            roots: self.roots.update(cursor as int, self.root_with(leaf)),
            current_root_index: cursor,
        }
    }

    /// The latest root.
    pub open spec fn last_root(self) -> nat {
        self.roots[self.current_root_index as int]
    }

    /// Whether `root` is remembered. Zero marks an unused place of the ring
    /// and is never a known root.
    pub open spec fn knows(self, root: nat) -> bool {
        root != 0 && exists|i: int| 0 <= i < ROOT_HISTORY_SIZE && self.roots[i] == root
    }
}

#[allow(non_snake_case)]
pub struct MerkleTreeWithHistory {
    pub levels: u32,
    pub filledSubtrees: Vec<U256>,
    pub zeros: Vec<U256>,
    pub currentRootIndex: usize,
    pub nextIndex: usize,
    pub roots: [U256; ROOT_HISTORY_SIZE],
    pub FIELD_SIZE: U256,
    pub ZERO_VALUE: U256,
    pub sponge: MimcSponge,
}

/// The numbers that a slice of values holds.
pub open spec fn values(s: Seq<U256>) -> Seq<nat> {
    Seq::new(s.len(), |i: int| s[i]@)
}

/// `hash_left_right` of two field elements: permute `(left, 0)`, add
/// `right` to the left half, permute again, and keep the left half.
pub fn hash_pair(sponge: &MimcSponge, left: U256, right: U256) -> (hash: U256)
    requires
        left@ < field_size(),
        right@ < field_size(),
    ensures
        hash@ == hash_left_right(left@, right@),
        hash@ < field_size(),
{
    let p = field_modulus();
    let first = sponge.mimcsponge(left, U256::new(0));
    let absorbed = addmod(&first.0, &right, &p);
    let second = sponge.mimcsponge(absorbed, first.1);
    proof {
        lemma_hash_in_field(left@, right@);
    }
    second.0
}

/// The number of leaves of a tree of depth `levels`.
fn leaf_capacity(levels: u32) -> (c: usize)
    requires
        levels < 32,
    ensures
        c == pow2(levels as nat),
{
    let mut c: usize = 1;
    let mut i: u32 = 0;
    proof {
        lemma2_to64();
    }
    while i < levels
        invariant
            i <= levels < 32,
            c == pow2(i as nat),
        decreases levels - i,
    {
        proof {
            lemma_pow2_unfold((i + 1) as nat);
            if i + 1 < 31 {
                lemma_pow2_strictly_increases((i + 1) as nat, 31);
            }
            lemma2_to64();
        }
        c = c * 2;
        i += 1;
    }
    c
}

#[allow(non_snake_case)]
impl MerkleTreeWithHistory {
    /// The tree as numbers.
    pub open spec fn view(&self) -> TreeModel {
        TreeModel {
            levels: self.levels as nat,
            filled: values(self.filledSubtrees@),
            next_index: self.nextIndex as nat,
            roots: values(self.roots@),
            current_root_index: self.currentRootIndex as nat,
        }
    }

    /// What every tree that `new` made and `insert` changed satisfies.
    pub open spec fn wf(&self) -> bool {
        &&& 0 < self.levels < 32
        &&& self.filledSubtrees@.len() == self.levels
        &&& self.zeros@.len() == self.levels
        &&& forall|i: int| 0 <= i < self.levels ==> (#[trigger] self.zeros@[i])@ == zero_at(i as nat)
        &&& forall|i: int| 0 <= i < self.levels ==> (#[trigger] self.filledSubtrees@[i])@ < field_size()
        &&& self.nextIndex <= pow2(self.levels as nat)
        &&& self.currentRootIndex < ROOT_HISTORY_SIZE
        &&& self.FIELD_SIZE@ == field_size()
        &&& self.ZERO_VALUE@ == zero_value()
    }

    /// An empty tree of depth `treeLevels`.
    pub fn new(treeLevels: u32) -> (tree: MerkleTreeWithHistory)
        requires
            0 < treeLevels < 32,
        ensures
            tree.wf(),
            tree@ == TreeModel::empty(treeLevels as nat),
            tree.nextIndex == 0,
            tree.currentRootIndex == 0,
            tree@.last_root() == hash_left_right(
                zero_at((treeLevels - 1) as nat),
                zero_at((treeLevels - 1) as nat),
            ),
    {
        let sponge = MimcSponge::new();
        let mut filled: Vec<U256> = Vec::new();
        let mut zeros: Vec<U256> = Vec::new();
        let mut current_zero = zero_leaf();
        zeros.push(current_zero);
        filled.push(current_zero);
        let mut i: u32 = 1;
        while i < treeLevels
            invariant
                1 <= i <= treeLevels < 32,
                zeros@.len() == i,
                filled@ == zeros@,
                current_zero@ == zero_at((i - 1) as nat),
                forall|j: int| 0 <= j < i ==> (#[trigger] zeros@[j])@ == zero_at(j as nat),
            decreases treeLevels - i,
        {
            proof {
                lemma_zero_in_field((i - 1) as nat);
            }
            current_zero = hash_pair(&sponge, current_zero, current_zero);
            zeros.push(current_zero);
            filled.push(current_zero);
            i += 1;
        }
        proof {
            lemma_zero_in_field((treeLevels - 1) as nat);
        }
        let mut roots = [U256::new(0);ROOT_HISTORY_SIZE];
        roots[0] = hash_pair(&sponge, current_zero, current_zero);
        let tree = MerkleTreeWithHistory {
            levels: treeLevels,
            filledSubtrees: filled,
            zeros,
            currentRootIndex: 0,
            nextIndex: 0,
            roots,
            FIELD_SIZE: field_modulus(),
            ZERO_VALUE: zero_leaf(),
            sponge,
        };
        proof {
            assert forall|j: int| 0 <= j < treeLevels implies (#[trigger] tree.filledSubtrees@[j])@
                < field_size() by {
                lemma_zero_in_field(j as nat);
            }
            assert(tree@.filled =~= TreeModel::empty(treeLevels as nat).filled);
            assert(tree@.roots =~= TreeModel::empty(treeLevels as nat).roots);
        }
        tree
    }

    /// The hash of two field elements.
    pub fn hashLeftRight(&self, left: U256, right: U256) -> (hash: U256)
        requires
            left@ < field_size(),
            right@ < field_size(),
        ensures
            hash@ == hash_left_right(left@, right@),
            hash@ < field_size(),
    {
        hash_pair(&self.sponge, left, right)
    }

    /// Appends `leaf` and commits the new root. A full tree is left as it
    /// is and gives `None`; else the result is the index of the leaf.
    pub fn insert(&mut self, leaf: U256) -> (index: Option<usize>)
        requires
            old(self).wf(),
            leaf@ < field_size(),
        ensures
            final(self).wf(),
            old(self)@.is_full() ==> index.is_none() && *final(self) == *old(self),
            !old(self)@.is_full() ==> index == Some(old(self).nextIndex) && final(self)@ == old(
                self,
            )@.insert(leaf@),
            !old(self)@.is_full() ==> final(self)@.last_root() == old(self)@.root_with(leaf@),
            final(self).zeros == old(self).zeros,
            final(self).FIELD_SIZE == old(self).FIELD_SIZE,
            final(self).ZERO_VALUE == old(self).ZERO_VALUE,
    {
        let mut current_index = self.nextIndex;
        if current_index == leaf_capacity(self.levels) {
            return None;
        }
        proof {
            lemma2_to64();
            if self.levels < 31 {
                lemma_pow2_strictly_increases(self.levels as nat, 31);
            }
        }
        self.nextIndex += 1;
        let mut current_level_hash = leaf;
        let levels = self.levels as usize;
        let ghost start = old(self)@;
        let mut i: usize = 0;
        while i < levels
            invariant
                i <= levels == self.levels,
                0 < self.levels < 32,
                self.filledSubtrees@.len() == levels,
                self.zeros@.len() == levels,
                forall|j: int| 0 <= j < levels ==> (#[trigger] self.zeros@[j])@ == zero_at(j as nat),
                forall|j: int|
                    0 <= j < levels ==> (#[trigger] self.filledSubtrees@[j])@ < field_size(),
                current_level_hash@ < field_size(),
                self.nextIndex == old(self).nextIndex + 1,
                self.currentRootIndex == old(self).currentRootIndex,
                self.roots == old(self).roots,
                self.zeros == old(self).zeros,
                self.levels == old(self).levels,
                self.FIELD_SIZE == old(self).FIELD_SIZE,
                self.ZERO_VALUE == old(self).ZERO_VALUE,
                start == old(self)@,
                climb(
                    values(self.filledSubtrees@),
                    current_index as nat,
                    current_level_hash@,
                    i as nat,
                    levels as nat,
                ) == climb(start.filled, start.next_index, leaf@, 0, levels as nat),
            decreases levels - i,
        {
            let ghost filled_before = values(self.filledSubtrees@);
            let left;
            let right;
            if current_index % 2 == 0 {
                left = current_level_hash;
                right = self.zeros[i];
                self.filledSubtrees[i] = current_level_hash;
                proof {
                    lemma_zero_in_field(i as nat);
                    assert(values(self.filledSubtrees@) =~= filled_before.update(
                        i as int,
                        current_level_hash@,
                    ));
                }
            } else {
                left = self.filledSubtrees[i];
                right = current_level_hash;
            }
            current_level_hash = hash_pair(&self.sponge, left, right);
            current_index = current_index / 2;
            i += 1;
        }
        self.currentRootIndex = (self.currentRootIndex + 1) % ROOT_HISTORY_SIZE;
        let ghost roots_before = values(self.roots@);
        self.roots[self.currentRootIndex] = current_level_hash;
        proof {
            assert(values(self.roots@) =~= roots_before.update(
                self.currentRootIndex as int,
                current_level_hash@,
            ));
        }
        Some(self.nextIndex - 1)
    }

    /// Whether `root` is among the remembered roots. The ring is searched
    /// from the latest root backwards, once around.
    pub fn is_known_root(&self, root: U256) -> (known: bool)
        requires
            self.currentRootIndex < ROOT_HISTORY_SIZE,
        ensures
            known == self@.knows(root@),
    {
        if root.is_zero() {
            return false;
        }
        let mut i = self.currentRootIndex;
        let ghost mut seen: int = 0;
        loop
            invariant_except_break
                0 <= seen < ROOT_HISTORY_SIZE,
            invariant
                self.currentRootIndex < ROOT_HISTORY_SIZE,
                root@ != 0,
                0 <= seen <= ROOT_HISTORY_SIZE,
                i == (self.currentRootIndex + ROOT_HISTORY_SIZE - seen) % (ROOT_HISTORY_SIZE as int),
                forall|j: int|
                    0 <= j < ROOT_HISTORY_SIZE && (self.currentRootIndex + ROOT_HISTORY_SIZE - j) % (
                    ROOT_HISTORY_SIZE as int) < seen ==> #[trigger] self.roots@[j] != root,
            ensures
                seen == ROOT_HISTORY_SIZE,
            decreases ROOT_HISTORY_SIZE - seen,
        {
            if root == self.roots[i] {
                proof {
                    assert(self@.roots[i as int] == root@);
                }
                return true;
            }
            if i == 0 {
                i = ROOT_HISTORY_SIZE;
            }
            i -= 1;
            proof {
                seen = seen + 1;
            }
            if i == self.currentRootIndex {
                break;
            }
        }
        false
    }

    /// The latest root.
    pub fn getLastRoot(&self) -> (root: U256)
        requires
            self.currentRootIndex < ROOT_HISTORY_SIZE,
        ensures
            root@ == self@.last_root(),
            root == self.roots@[self.currentRootIndex as int],
    {
        self.roots[self.currentRootIndex]
    }
}

/// The tree after `leaves` went into an empty tree of depth `levels`, one
/// after the other.
pub open spec fn after_inserts(levels: nat, leaves: Seq<nat>) -> TreeModel
    decreases leaves.len(),
{
    if leaves.len() == 0 {
        TreeModel::empty(levels)
    } else {
        after_inserts(levels, leaves.drop_last()).insert(leaves.last())
    }
}

/// The root that was the latest when the first `count` of `leaves` were in:
/// for `count == 0` the root of the empty tree.
pub open spec fn root_after(levels: nat, leaves: Seq<nat>, count: nat) -> nat {
    after_inserts(levels, leaves.take(count as int)).last_root()
}

/// The number of insertions after which the place `slot` of the ring was
/// last written, once `count` leaves are in; negative where it never was.
#[verifier::opaque]
pub open spec fn slot_owner(count: nat, slot: int) -> int {
    count - ((count + ROOT_HISTORY_SIZE - slot) % (ROOT_HISTORY_SIZE as int))
}

/// The owner of a place is the latest insertion that falls on it.
pub proof fn lemma_slot_owner(count: nat, slot: int)
    requires
        0 <= slot < ROOT_HISTORY_SIZE,
    ensures
        count - ROOT_HISTORY_SIZE < slot_owner(count, slot) <= count,
        slot_owner(count, slot) >= 0 ==> slot_owner(count, slot) % (ROOT_HISTORY_SIZE as int) == slot,
        slot == count % (ROOT_HISTORY_SIZE as nat) ==> slot_owner(count, slot) == count,
        count > 0 && slot != count % (ROOT_HISTORY_SIZE as nat) ==> slot_owner(count, slot)
            == slot_owner((count - 1) as nat, slot),
{
    reveal(slot_owner);
}

/// An insertion of the last hundred owns the place it falls on.
pub proof fn lemma_owner_of_recent(count: nat, j: nat)
    requires
        count - ROOT_HISTORY_SIZE < j <= count,
    ensures
        slot_owner(count, (j % (ROOT_HISTORY_SIZE as nat)) as int) == j,
{
    reveal(slot_owner);
}

/// What the ring holds after any number of insertions: each place holds the
/// root of the latest insertion that wrote it, or zero.
pub proof fn lemma_ring_contents(levels: nat, leaves: Seq<nat>)
    ensures
        ({
            let t = after_inserts(levels, leaves);
            &&& t.levels == levels
            &&& t.next_index == leaves.len()
            &&& t.current_root_index == leaves.len() % (ROOT_HISTORY_SIZE as nat)
            &&& t.roots.len() == ROOT_HISTORY_SIZE
            &&& forall|i: int|
                0 <= i < ROOT_HISTORY_SIZE ==> #[trigger] t.roots[i] == if slot_owner(leaves.len(), i)
                    >= 0 {
                    root_after(levels, leaves, slot_owner(leaves.len(), i) as nat)
                } else {
                    0
                }
        }),
    decreases leaves.len(),
{
    let n = leaves.len();
    let t = after_inserts(levels, leaves);
    if n == 0 {
        assert(leaves.take(0) =~= leaves);
        assert forall|i: int| 0 <= i < ROOT_HISTORY_SIZE implies #[trigger] t.roots[i] == if slot_owner(
            n,
            i,
        ) >= 0 {
            root_after(levels, leaves, slot_owner(n, i) as nat)
        } else {
            0
        } by {
            lemma_slot_owner(n, i);
        }
    } else {
        let earlier = leaves.drop_last();
        let before = after_inserts(levels, earlier);
        lemma_ring_contents(levels, earlier);
        let cursor = (before.current_root_index + 1) % (ROOT_HISTORY_SIZE as nat);
        assert(cursor == n % (ROOT_HISTORY_SIZE as nat));
        assert(leaves.take(n as int) =~= leaves);
        assert forall|i: int| 0 <= i < ROOT_HISTORY_SIZE implies #[trigger] t.roots[i] == if slot_owner(
            n,
            i,
        ) >= 0 {
            root_after(levels, leaves, slot_owner(n, i) as nat)
        } else {
            0
        } by {
            lemma_slot_owner(n, i);
            lemma_slot_owner((n - 1) as nat, i);
            if i == cursor {
            } else {
                let owner = slot_owner((n - 1) as nat, i);
                assert(t.roots[i] == before.roots[i]);
                if owner >= 0 {
                    assert(earlier.take(owner) =~= leaves.take(owner));
                }
            }
        }
    }
}

/// After `N` leaves went into an empty tree, the tree counts `N` leaves,
/// its latest root stands at place `N mod 100` of the ring, and it is full
/// exactly when `N` is its capacity. With the root of the empty tree counted
/// as the root after no insertion, the tree knows the roots after insertion
/// `j` for `N - 100 < j <= N` and no others: each of them is known unless it
/// is zero, every known root is one of them, and zero is never known.
pub proof fn lemma_sequential_inserts(levels: nat, leaves: Seq<nat>)
    requires
        0 < levels,
        leaves.len() <= pow2(levels),
    ensures
        after_inserts(levels, leaves).next_index == leaves.len(),
        after_inserts(levels, leaves).current_root_index == leaves.len() % (ROOT_HISTORY_SIZE as nat),
        after_inserts(levels, leaves).is_full() <==> leaves.len() == pow2(levels),
        forall|j: nat|
            leaves.len() - ROOT_HISTORY_SIZE < j <= leaves.len() && #[trigger] root_after(
                levels,
                leaves,
                j,
            ) != 0 ==> after_inserts(levels, leaves).knows(root_after(levels, leaves, j)),
        forall|root: nat| #[trigger]
            after_inserts(levels, leaves).knows(root) ==> exists|j: nat|
                leaves.len() - ROOT_HISTORY_SIZE < j <= leaves.len() && #[trigger] root_after(
                    levels,
                    leaves,
                    j,
                ) == root,
        !after_inserts(levels, leaves).knows(0),
{
    let n = leaves.len();
    let t = after_inserts(levels, leaves);
    lemma_ring_contents(levels, leaves);
    assert forall|j: nat|
        n - ROOT_HISTORY_SIZE < j <= n && #[trigger] root_after(levels, leaves, j) != 0 implies t.knows(
        root_after(levels, leaves, j),
    ) by {
        let slot = (j % (ROOT_HISTORY_SIZE as nat)) as int;
        lemma_owner_of_recent(n, j);
        assert(t.roots[slot] == root_after(levels, leaves, j));
    }
    assert forall|root: nat| #[trigger] t.knows(root) implies exists|j: nat|
        n - ROOT_HISTORY_SIZE < j <= n && #[trigger] root_after(levels, leaves, j) == root by {
        let slot = choose|i: int| 0 <= i < ROOT_HISTORY_SIZE && t.roots[i] == root;
        let owner = slot_owner(n, slot);
        lemma_slot_owner(n, slot);
        assert(owner >= 0);
        assert(root_after(levels, leaves, owner as nat) == root);
    }
}

} // verus!
