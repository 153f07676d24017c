//! Merkle trees over transaction hashes, with inclusion proofs.
use vstd::prelude::*;
use vstd::arithmetic::power2::{lemma2_to64, lemma_pow2_unfold, pow2};

use crate::crypto::{decode_hex, sha256, sha256_digest};
use crate::error::MiniChainError;
use crate::text::{
    encode_hex, hex_decode, hex_text, lemma_hex_round_trip, lemma_text_order_total, push_bytes,
    same_text, sort_texts, text_leq, text_less_or_equal, text_order, texts, utf8,
};

verus! {

/// The 32-byte digest that hexadecimal text denotes, if it denotes one.
pub open spec fn digest_of_text(text: Seq<char>) -> Option<Seq<u8>> {
    match hex_decode(utf8(text)) {
        Some(bytes) => if bytes.len() == 32 {
            Some(bytes)
        } else {
            None
        },
        None => None,
    }
}

/// The leaf node of a transaction digest: SHA-256 of a zero byte and the digest.
pub open spec fn leaf_digest(digest: Seq<u8>) -> Seq<u8> {
    sha256_digest(seq![0u8] + digest)
}

/// An inner node: SHA-256 of a one byte and its two children.
pub open spec fn parent_digest(left: Seq<u8>, right: Seq<u8>) -> Seq<u8> {
    sha256_digest(seq![1u8] + left + right)
}

/// The level above `level`: pairs are combined, and a last node without a
/// partner is combined with itself.
pub open spec fn next_level(level: Seq<Seq<u8>>) -> Seq<Seq<u8>> {
    Seq::new(
        ((level.len() + 1) / 2) as nat,
        |i: int|
            parent_digest(
                level[2 * i],
                if 2 * i + 1 < level.len() {
                    level[2 * i + 1]
                } else {
                    level[2 * i]
                },
            ),
    )
}

/// All levels of the tree whose lowest level is `level`, up to the one-node level.
pub open spec fn tree_levels(level: Seq<Seq<u8>>) -> Seq<Seq<Seq<u8>>>
    decreases level.len(),
{
    if level.len() <= 1 {
        seq![level]
    } else {
        seq![level] + tree_levels(next_level(level))
    }
}

/// Whether every hash is the hexadecimal text of a 32-byte digest.
pub open spec fn all_digests(hashes: Seq<Seq<char>>) -> bool {
    forall|i: int| 0 <= i < hashes.len() ==> (#[trigger] digest_of_text(hashes[i])) is Some
}

/// The leaves of the tree over (sorted) hashes.
pub open spec fn leaves_of(hashes: Seq<Seq<char>>) -> Seq<Seq<u8>> {
    hashes.map_values(|h: Seq<char>| leaf_digest(digest_of_text(h)->0))
}

/// The hashes of a tree, in string order.
pub open spec fn sorted_hashes(hashes: Seq<Seq<char>>) -> Seq<Seq<char>> {
    hashes.sort_by(text_order())
}

/// One step of an inclusion proof, as text: the sibling digest and whether it is on the left.
pub type StepView = (Seq<char>, bool);

/// The steps of the inclusion proof for the node at `index` of the lowest of `levels`.
pub open spec fn path_steps(levels: Seq<Seq<Seq<u8>>>, index: int) -> Seq<StepView>
    decreases levels.len(),
{
    if levels.len() <= 1 {
        seq![]
    } else {
        let level = levels[0];
        let step = if index % 2 == 0 {
            let sibling = if index + 1 < level.len() {
                index + 1
            } else {
                level.len() - 1
            };
            (hex_text(level[sibling]), false)
        } else {
            (hex_text(level[index - 1]), true)
        };
        seq![step] + path_steps(levels.drop_first(), index / 2)
    }
}

/// Folds proof steps onto a node; `None` if a sibling is not a digest.
pub open spec fn fold_steps(current: Seq<u8>, steps: Seq<StepView>) -> Option<Seq<u8>>
    decreases steps.len(),
{
    if steps.len() == 0 {
        Some(current)
    } else {
        match digest_of_text(steps[0].0) {
            Some(sibling) => fold_steps(
                if steps[0].1 {
                    parent_digest(sibling, current)
                } else {
                    parent_digest(current, sibling)
                },
                steps.drop_first(),
            ),
            None => None,
        }
    }
}

/// Whether a proof for `leaf_hash` leads to the root whose text is `expected_root`.
pub open spec fn proof_verifies(
    leaf_hash: Seq<char>,
    steps: Seq<StepView>,
    expected_root: Seq<char>,
) -> bool {
    match digest_of_text(leaf_hash) {
        Some(digest) => match fold_steps(leaf_digest(digest), steps) {
            Some(root) => hex_text(root) == expected_root,
            None => false,
        },
        None => false,
    }
}

/// A Merkle tree over a non-empty set of transaction hashes.
#[derive(Clone, Debug, PartialEq, Eq)]
pub struct MerkleTree {
    sorted_hashes: Vec<String>,
    levels: Vec<Vec<[u8; 32]>>,
}

/// One step of an inclusion proof.
#[derive(Clone, Debug, PartialEq, Eq)]
pub struct MerkleStep {
    pub sibling: String,
    pub sibling_on_left: bool,
}

/// A proof that a transaction hash is a leaf of a Merkle tree.
#[derive(Clone, Debug, PartialEq, Eq)]
pub struct MerkleProof {
    pub leaf_hash: String,
    pub steps: Vec<MerkleStep>,
}

/// The digests of one exec level.
pub open spec fn level_view(level: Seq<[u8; 32]>) -> Seq<Seq<u8>> {
    level.map_values(|d: [u8; 32]| d@)
}

/// The digests of all exec levels.
pub open spec fn levels_view(levels: Seq<Vec<[u8; 32]>>) -> Seq<Seq<Seq<u8>>> {
    levels.map_values(|l: Vec<[u8; 32]>| level_view(l@))
}

/// The steps of a proof, as text.
pub open spec fn steps_view(steps: Seq<MerkleStep>) -> Seq<StepView> {
    steps.map_values(|s: MerkleStep| (s.sibling@, s.sibling_on_left))
}

impl MerkleProof {
    /// The steps of this proof, as text.
    pub open spec fn step_views(&self) -> Seq<StepView> {
        steps_view(self.steps@)
    }
}

impl MerkleTree {
    /// The leaf hashes, in string order.
    pub closed spec fn hashes(&self) -> Seq<Seq<char>> {
        texts(self.sorted_hashes@)
    }

    /// All levels, from the leaves up to the root.
    pub closed spec fn levels(&self) -> Seq<Seq<Seq<u8>>> {
        levels_view(self.levels@)
    }

    /// The root digest.
    pub open spec fn root_digest(&self) -> Seq<u8> {
        self.levels().last()[0]
    }

    /// Well-formedness: the hashes are sorted digests and the levels are the
    /// tree over their leaves.
    pub closed spec fn valid(&self) -> bool {
        &&& self.sorted_hashes@.len() > 0
        &&& vstd::relations::sorted_by(self.hashes(), text_order())
        &&& all_digests(self.hashes())
        &&& self.levels() == tree_levels(leaves_of(self.hashes()))
        &&& forall|k: int, j: int|
            0 <= k < self.levels@.len() && 0 <= j < self.levels@[k]@.len() ==> #[trigger] self.levels@[k]@[j]@.len() == 32
    }

    /// Builds the tree over `hashes`, which are sorted first.
    pub fn from_hashes(hashes: &[String]) -> (r: Result<Self, MiniChainError>)
        ensures
            hashes@.len() == 0 ==> r == Err::<Self, MiniChainError>(MiniChainError::EmptyMerkleTree),
            hashes@.len() > 0 && !all_digests(texts(hashes@)) ==> r == Err::<Self, MiniChainError>(
                MiniChainError::InvalidHex,
            ),
            hashes@.len() > 0 && all_digests(texts(hashes@)) ==> r is Ok,
            r matches Ok(tree) ==> {
                &&& tree.valid()
                &&& tree.hashes() == sorted_hashes(texts(hashes@))
                &&& forall|h: Seq<char>| tree.hashes().contains(h) <==> texts(hashes@).contains(h)
                &&& tree.levels() == tree_levels(leaves_of(sorted_hashes(texts(hashes@))))
            },
    {
        if hashes.len() == 0 {
            return Err(MiniChainError::EmptyMerkleTree);
        }
        let sorted = sort_texts(hashes);
        proof {
            lemma_text_order_total();
            texts(hashes@).lemma_sort_by_ensures(text_order());
            lemma_sorted_has_same_digests(texts(hashes@), texts(sorted@));
            vstd::seq_lib::to_multiset_len(texts(hashes@));
            vstd::seq_lib::to_multiset_len(texts(sorted@));
            assert(texts(sorted@).len() == texts(hashes@).len());
        }
        let mut leaves: Vec<[u8; 32]> = Vec::new();
        let mut i: usize = 0;
        while i < sorted.len()
            invariant
                i <= sorted@.len(),
                hashes@.len() > 0,
                all_digests(texts(hashes@)) <==> all_digests(texts(sorted@)),
                leaves@.len() == i,
                forall|k: int| 0 <= k < i ==> (#[trigger] digest_of_text(sorted@[k]@)) is Some,
                forall|k: int|
                    0 <= k < i ==> #[trigger] leaves@[k]@ == leaf_digest(
                        digest_of_text(sorted@[k]@)->0,
                    ),
            decreases sorted@.len() - i,
        {
            let leaf = leaf_node(sorted[i].as_str());
            match leaf {
                Ok(node) => {
                    leaves.push(node);
                },
                Err(e) => {
                    proof {
                        assert(texts(sorted@)[i as int] == sorted@[i as int]@);
                        assert(!all_digests(texts(sorted@)));
                    }
                    return Err(e);
                },
            }
            i = i + 1;
        }
        let ghost all_leaves = leaves_of(texts(sorted@));
        proof {
            assert(level_view(leaves@) =~= all_leaves);
        }
        let mut levels: Vec<Vec<[u8; 32]>> = Vec::new();
        levels.push(leaves);
        loop
            invariant
                levels@.len() >= 1,
                levels_view(levels@).drop_last() + tree_levels(
                    level_view(levels@.last()@),
                ) == tree_levels(all_leaves),
                level_view(levels@.last()@).len() >= 1,
                forall|k: int, j: int|
                    0 <= k < levels@.len() && 0 <= j < levels@[k]@.len() ==> #[trigger] levels@[k]@[j]@.len() == 32,
            ensures
                levels@.len() >= 1,
                levels_view(levels@).drop_last() + tree_levels(
                    level_view(levels@.last()@),
                ) == tree_levels(all_leaves),
                level_view(levels@.last()@).len() == 1,
                forall|k: int, j: int|
                    0 <= k < levels@.len() && 0 <= j < levels@[k]@.len() ==> #[trigger] levels@[k]@[j]@.len() == 32,
            decreases level_view(levels@.last()@).len(),
        {
            let last = levels.len() - 1;
            let count = levels[last].len();
            if count <= 1 {
                break ;
            }
            let ghost current = level_view(levels@[last as int]@);
            let mut parents: Vec<[u8; 32]> = Vec::new();
            let mut j: usize = 0;
            let half = count / 2 + count % 2;
            while j < half
                invariant
                    half == (count + 1) / 2,
                    count == current.len(),
                    count > 1,
                    last == levels@.len() - 1,
                    current == level_view(levels@[last as int]@),
                    j <= (count + 1) / 2,
                    parents@.len() == j,
                    forall|k: int| 0 <= k < j ==> #[trigger] parents@[k]@ == next_level(current)[k],
                decreases half - j,
            {
                let left = &levels[last][2 * j];
                let right = if 2 * j + 1 < count {
                    &levels[last][2 * j + 1]
                } else {
                    &levels[last][2 * j]
                };
                parents.push(parent_node(left, right));
                j = j + 1;
            }
            let ghost before = levels@;
            proof {
                assert(level_view(parents@) =~= next_level(current));
                assert(tree_levels(current) == seq![current] + tree_levels(next_level(current)));
            }
            levels.push(parents);
            proof {
                assert(levels_view(levels@).drop_last() =~= levels_view(before).drop_last() + seq![
                    current,
                ]);
                assert(levels_view(before).drop_last() + tree_levels(current) =~= levels_view(
                    before,
                ).drop_last() + seq![current] + tree_levels(next_level(current)));
            }
        }
        proof {
            let top = level_view(levels@.last()@);
            assert(tree_levels(top) == seq![top]);
            assert(levels_view(levels@) =~= levels_view(levels@).drop_last() + seq![top]);
        }
        Ok(MerkleTree { sorted_hashes: sorted, levels })
    }

    /// The root digest, as lowercase hexadecimal text.
    pub fn root(&self) -> (r: String)
        requires
            self.valid(),
        ensures
            r@ == hex_text(self.root_digest()),
    {
        proof {
            lemma_tree_levels_shape(leaves_of(self.hashes()));
        }
        let top = &self.levels[self.levels.len() - 1];
        encode_hex(top[0].as_slice())
    }

    /// The inclusion proof for a transaction hash of this tree.
    pub fn inclusion_proof(&self, transaction_hash: &str) -> (r: Result<MerkleProof, MiniChainError>)
        requires
            self.valid(),
        ensures
            r is Err <==> !self.hashes().contains(transaction_hash@),
            r matches Err(e) ==> e == MiniChainError::TransactionNotInMerkleTree,
            r matches Ok(p) ==> {
                &&& p.leaf_hash@ == transaction_hash@
                &&& exists|i: int|
                    0 <= i < self.hashes().len() && self.hashes()[i] == transaction_hash@
                        && p.step_views() == path_steps(self.levels(), i)
            },
    {
        proof {
            lemma_tree_levels_shape(leaves_of(self.hashes()));
        }
        let found = self.find(transaction_hash);
        let start = match found {
            Some(i) => i,
            None => {
                return Err(MiniChainError::TransactionNotInMerkleTree);
            },
        };
        let mut index = start;
        let mut steps: Vec<MerkleStep> = Vec::new();
        let mut k: usize = 0;
        let count = self.levels.len() - 1;
        proof {
            lemma_path_steps_unfold(self.levels(), start as int);
        }
        while k < count
            invariant
                self.valid(),
                count == self.levels@.len() - 1,
                k <= count,
                0 <= index < self.levels@[k as int]@.len(),
                steps_view(steps@) + path_steps(self.levels().skip(k as int), index as int)
                    == path_steps(self.levels(), start as int),
                forall|m: int|
                    0 <= m < self.levels@.len() ==> #[trigger] self.levels@[m]@.len() == tree_levels(
                        leaves_of(self.hashes()),
                    )[m].len(),
                forall|m: int|
                    1 <= m < self.levels@.len() ==> (#[trigger] tree_levels(
                        leaves_of(self.hashes()),
                    )[m]).len() == (tree_levels(leaves_of(self.hashes()))[m - 1].len() + 1) / 2,
            decreases count - k,
        {
            let level = &self.levels[k];
            let (sibling_index, sibling_on_left) = if index % 2 == 0 {
                (if index + 1 < level.len() {
                    index + 1
                } else {
                    level.len() - 1
                }, false)
            } else {
                (index - 1, true)
            };
            let step = MerkleStep { sibling: encode_hex(level[sibling_index].as_slice()), sibling_on_left };
            let ghost old_steps = steps@;
            steps.push(step);
            proof {
                let ls = self.levels().skip(k as int);
                assert(ls.len() > 1);
                assert(ls[0] == level_view(level@));
                assert(ls.drop_first() =~= self.levels().skip(k + 1));
                assert(steps_view(steps@) =~= steps_view(old_steps) + seq![
                    (step.sibling@, step.sibling_on_left),
                ]);
            }
            index = index / 2;
            k = k + 1;
        }
        proof {
            assert(self.levels().skip(count as int).len() == 1);
        }
        Ok(MerkleProof { leaf_hash: transaction_hash.to_owned(), steps })
    }

    /// The position of `hash` among the sorted hashes, found by binary search.
    fn find(&self, hash: &str) -> (r: Option<usize>)
        requires
            self.valid(),
        ensures
            r matches Some(i) ==> i < self.hashes().len() && self.hashes()[i as int] == hash@,
            r is None ==> !self.hashes().contains(hash@),
    {
        proof {
            lemma_text_order_total();
        }
        let ghost hs = self.hashes();
        let mut lo: usize = 0;
        let mut hi: usize = self.sorted_hashes.len();
        while lo < hi
            invariant
                self.valid(),
                hs == self.hashes(),
                hs.len() == self.sorted_hashes@.len(),
                vstd::relations::total_ordering(text_order()),
                lo <= hi <= hs.len(),
                forall|k: int| 0 <= k < lo ==> (#[trigger] hs[k]) != hash@,
                forall|k: int| hi <= k < hs.len() ==> (#[trigger] hs[k]) != hash@,
            decreases hi - lo,
        {
            let mid = lo + (hi - lo) / 2;
            let candidate = self.sorted_hashes[mid].as_str();
            if same_text(candidate, hash) {
                return Some(mid);
            }
            if text_less_or_equal(candidate, hash) {
                proof {
                    assert forall|k: int| 0 <= k <= mid implies (#[trigger] hs[k]) != hash@ by {
                        if k < mid {
                            assert(text_order()(hs[k], hs[mid as int]));
                        }
                        if hs[k] == hash@ {
                            assert(text_order()(hs[mid as int], hs[k]));
                        }
                    }
                }
                lo = mid + 1;
            } else {
                proof {
                    assert(text_order()(hs[mid as int], hash@) || text_order()(hash@, hs[mid as int]));
                    assert forall|k: int| mid <= k < hs.len() implies (#[trigger] hs[k]) != hash@ by {
                        if k > mid {
                            assert(text_order()(hs[mid as int], hs[k]));
                        }
                    }
                }
                hi = mid;
            }
        }
        None
    }
}

impl MerkleProof {
    /// Whether this proof leads from its leaf hash to `expected_root`.
    pub fn verify(&self, expected_root: &str) -> (r: bool)
        ensures
            r == proof_verifies(self.leaf_hash@, self.step_views(), expected_root@),
    {
        let mut current = match leaf_node(self.leaf_hash.as_str()) {
            Ok(node) => node,
            Err(_) => {
                return false;
            },
        };
        let ghost leaf = current@;
        assert(self.step_views().skip(0) =~= self.step_views());
        let mut i: usize = 0;
        while i < self.steps.len()
            invariant
                i <= self.steps@.len(),
                digest_of_text(self.leaf_hash@) is Some,
                leaf == leaf_digest(digest_of_text(self.leaf_hash@)->0),
                fold_steps(leaf, self.step_views()) == fold_steps(
                    current@,
                    self.step_views().skip(i as int),
                ),
            decreases self.steps@.len() - i,
        {
            let step = &self.steps[i];
            let sibling = match decode_digest(step.sibling.as_str()) {
                Ok(digest) => digest,
                Err(_) => {
                    assert(self.step_views().skip(i as int)[0] == (step.sibling@, step.sibling_on_left));
                    return false;
                },
            };
            assert(self.step_views().skip(i as int)[0] == (step.sibling@, step.sibling_on_left));
            current = if step.sibling_on_left {
                parent_node(&sibling, &current)
            } else {
                parent_node(&current, &sibling)
            };
            assert(self.step_views().skip(i as int).drop_first() =~= self.step_views().skip(i + 1));
            i = i + 1;
        }
        let text = encode_hex(current.as_slice());
        same_text(text.as_str(), expected_root)
    }
}

/// The root of a block without transactions: the SHA-256 of no bytes, as text.
pub open spec fn empty_root_text() -> Seq<char> {
    hex_text(sha256_digest(seq![]))
}

/// The Merkle root recorded for a block without transactions.
pub fn empty_merkle_root() -> (r: String)
    ensures
        r@ == empty_root_text(),
{
    let empty: Vec<u8> = Vec::new();
    let digest = sha256(empty.as_slice());
    assert(empty@ =~= seq![]);
    encode_hex(digest.as_slice())
}

/// The leaf node of a transaction hash.
pub fn leaf_node(hash: &str) -> (r: Result<[u8; 32], MiniChainError>)
    ensures
        match r {
            Ok(node) => digest_of_text(hash@) is Some && node@ == leaf_digest(
                digest_of_text(hash@)->0,
            ),
            Err(e) => digest_of_text(hash@) is None && e == MiniChainError::InvalidHex,
        },
{
    let digest = decode_digest(hash)?;
    let mut bytes: Vec<u8> = Vec::new();
    bytes.push(0u8);
    push_bytes(&mut bytes, digest.as_slice());
    assert(bytes@ =~= seq![0u8] + digest@);
    Ok(sha256(bytes.as_slice()))
}

/// The inner node over two children.
pub fn parent_node(left: &[u8; 32], right: &[u8; 32]) -> (node: [u8; 32])
    ensures
        node@ == parent_digest(left@, right@),
{
    let mut bytes: Vec<u8> = Vec::new();
    bytes.push(1u8);
    push_bytes(&mut bytes, left.as_slice());
    push_bytes(&mut bytes, right.as_slice());
    assert(bytes@ =~= seq![1u8] + left@ + right@);
    sha256(bytes.as_slice())
}

/// The 32-byte digest that hexadecimal text denotes.
pub fn decode_digest(hash: &str) -> (r: Result<[u8; 32], MiniChainError>)
    ensures
        match r {
            Ok(digest) => digest_of_text(hash@) == Some(digest@),
            Err(e) => digest_of_text(hash@) is None && e == MiniChainError::InvalidHex,
        },
{
    let bytes = decode_hex(hash)?;
    if bytes.len() != 32 {
        return Err(MiniChainError::InvalidHex);
    }
    Ok(crate::crypto::to_array_32(bytes.as_slice()))
}

proof fn lemma_sorted_has_same_digests(unsorted: Seq<Seq<char>>, sorted: Seq<Seq<char>>)
    requires
        unsorted.to_multiset() =~= sorted.to_multiset(),
    ensures
        all_digests(unsorted) <==> all_digests(sorted),
        forall|h: Seq<char>| sorted.contains(h) <==> unsorted.contains(h),
{
    broadcast use vstd::seq_lib::group_to_multiset_ensures;

    assert forall|h: Seq<char>| sorted.contains(h) <==> unsorted.contains(h) by {
        assert(sorted.to_multiset().count(h) == unsorted.to_multiset().count(h));
    }
    if all_digests(unsorted) {
        assert forall|i: int| 0 <= i < sorted.len() implies (#[trigger] digest_of_text(sorted[i])) is Some by {
            assert(sorted.contains(sorted[i]));
            let j = choose|j: int| 0 <= j < unsorted.len() && unsorted[j] == sorted[i];
            assert(digest_of_text(unsorted[j]) is Some);
        }
    }
    if all_digests(sorted) {
        assert forall|i: int| 0 <= i < unsorted.len() implies (#[trigger] digest_of_text(unsorted[i])) is Some by {
            assert(unsorted.contains(unsorted[i]));
            let j = choose|j: int| 0 <= j < sorted.len() && sorted[j] == unsorted[i];
            assert(digest_of_text(sorted[j]) is Some);
        }
    }
}

/// The shape of the levels: each level halves the one below (rounding up),
/// and the top level holds one node.
proof fn lemma_tree_levels_shape(level: Seq<Seq<u8>>)
    requires
        level.len() >= 1,
    ensures
        tree_levels(level).len() >= 1,
        tree_levels(level)[0] == level,
        tree_levels(level).last().len() == 1,
        forall|m: int|
            1 <= m < tree_levels(level).len() ==> (#[trigger] tree_levels(level)[m]).len() == (
            tree_levels(level)[m - 1].len() + 1) / 2,
        forall|m: int|
            0 <= m < tree_levels(level).len() ==> (#[trigger] tree_levels(level)[m]).len() >= 1,
        forall|m: int|
            0 <= m < tree_levels(level).len() - 1 ==> (#[trigger] tree_levels(level)[m]).len() > 1,
    decreases level.len(),
{
    if level.len() > 1 {
        let up = next_level(level);
        lemma_tree_levels_shape(up);
        let t = tree_levels(level);
        let tu = tree_levels(up);
        assert(t == seq![level] + tu);
        assert forall|m: int| 1 <= m < t.len() implies (#[trigger] t[m]).len() == (t[m - 1].len() + 1) / 2 by {
            assert(t[m] == tu[m - 1]);
            if m == 1 {
                assert(t[0] == level);
                assert(up.len() == (level.len() + 1) / 2);
            } else {
                assert(t[m - 1] == tu[m - 2]);
                assert(tu[m - 1].len() == (tu[m - 2].len() + 1) / 2);
            }
        }
        assert forall|m: int| 0 <= m < t.len() implies (#[trigger] t[m]).len() >= 1 by {
            if m > 0 {
                assert(t[m] == tu[m - 1]);
            }
        }
        assert forall|m: int| 0 <= m < t.len() - 1 implies (#[trigger] t[m]).len() > 1 by {
            if m > 0 {
                assert(t[m] == tu[m - 1]);
            }
        }
    }
}

proof fn lemma_path_steps_unfold(levels: Seq<Seq<Seq<u8>>>, index: int)
    ensures
        levels.skip(0) == levels,
{
    assert(levels.skip(0) =~= levels);
}

/// Folding the proof steps of the node at `index` onto that node gives the root.
proof fn lemma_path_reaches_root(level: Seq<Seq<u8>>, index: int)
    requires
        0 <= index < level.len(),
        forall|m: int, j: int|
            0 <= m < tree_levels(level).len() && 0 <= j < tree_levels(level)[m].len()
                ==> #[trigger] tree_levels(level)[m][j].len() == 32,
    ensures
        fold_steps(level[index], path_steps(tree_levels(level), index)) == Some(
            tree_levels(level).last()[0],
        ),
    decreases level.len(),
{
    let t = tree_levels(level);
    if level.len() <= 1 {
        assert(path_steps(t, index) =~= seq![]);
    } else {
        let up = next_level(level);
        assert(t == seq![level] + tree_levels(up));
        assert(t.drop_first() =~= tree_levels(up));
        assert forall|m: int, j: int|
            0 <= m < tree_levels(up).len() && 0 <= j < tree_levels(up)[m].len()
                implies #[trigger] tree_levels(up)[m][j].len() == 32 by {
            assert(tree_levels(up)[m] == t[m + 1]);
        }
        lemma_path_reaches_root(up, index / 2);
        let steps = path_steps(t, index);
        let sibling_index = if index % 2 == 0 {
            if index + 1 < level.len() {
                index + 1
            } else {
                level.len() - 1
            }
        } else {
            index - 1
        };
        assert(level[sibling_index].len() == 32) by {
            assert(t[0] == level);
        }
        lemma_hex_round_trip(level[sibling_index]);
        assert(digest_of_text(steps[0].0) == Some(level[sibling_index]));
        assert(steps.drop_first() =~= path_steps(tree_levels(up), index / 2));
        assert(tree_levels(up).last() == t.last());
        if index % 2 == 0 {
            assert(up[index / 2] == parent_digest(level[index], level[sibling_index]));
        } else {
            assert(up[index / 2] == parent_digest(level[sibling_index], level[index]));
        }
    }
}

/// Every leaf of a well-formed tree has an inclusion proof that leads to the
/// tree's root: the proof that `inclusion_proof` builds for the hash at `index`
/// verifies against the text of the root.
pub proof fn lemma_inclusion_proofs_verify(tree: MerkleTree, index: int)
    requires
        tree.valid(),
        0 <= index < tree.hashes().len(),
    ensures
        proof_verifies(
            tree.hashes()[index],
            path_steps(tree.levels(), index),
            hex_text(tree.root_digest()),
        ),
{
    let leaves = leaves_of(tree.hashes());
    lemma_tree_levels_shape(leaves);
    assert forall|m: int, j: int|
        0 <= m < tree_levels(leaves).len() && 0 <= j < tree_levels(leaves)[m].len()
            implies #[trigger] tree_levels(leaves)[m][j].len() == 32 by {
        assert(tree.levels@[m]@[j]@.len() == 32);
        assert(tree_levels(leaves)[m][j] == tree.levels@[m]@[j]@);
    }
    lemma_path_reaches_root(leaves, index);
    assert(digest_of_text(tree.hashes()[index]) is Some);
}

/// ⌈log₂ n⌉: how many halvings, rounding up, take `n` items down to one.
pub open spec fn ceil_log2(n: nat) -> nat
    decreases n,
{
    if n <= 1 {
        0
    } else {
        1 + ceil_log2(((n + 1) / 2) as nat)
    }
}

/// `ceil_log2(n)` is the least `k` with `2^k >= n`.
pub proof fn lemma_ceil_log2_bounds(n: nat)
    requires
        n >= 1,
    ensures
        pow2(ceil_log2(n)) >= n,
        n > 1 ==> pow2((ceil_log2(n) - 1) as nat) < n,
    decreases n,
{
    lemma2_to64();
    if n > 1 {
        let m = ((n + 1) / 2) as nat;
        lemma_ceil_log2_bounds(m);
        let k = ceil_log2(n);
        assert(k == 1 + ceil_log2(m));
        assert(((k - 1) as nat) == ceil_log2(m));
        lemma_pow2_unfold(k);
        assert(pow2(k) == 2 * pow2(ceil_log2(m)));
        if m > 1 {
            lemma_pow2_unfold(ceil_log2(m));
            assert(pow2(ceil_log2(m)) == 2 * pow2((ceil_log2(m) - 1) as nat));
        } else {
            assert(ceil_log2(m) == 0);
        }
    }
}

proof fn lemma_tree_levels_len(level: Seq<Seq<u8>>)
    ensures
        tree_levels(level).len() == ceil_log2(level.len()) + 1,
    decreases level.len(),
{
    if level.len() > 1 {
        lemma_tree_levels_len(next_level(level));
    }
}

proof fn lemma_path_steps_len(levels: Seq<Seq<Seq<u8>>>, index: int)
    requires
        levels.len() >= 1,
    ensures
        path_steps(levels, index).len() == levels.len() - 1,
    decreases levels.len(),
{
    if levels.len() > 1 {
        lemma_path_steps_len(levels.drop_first(), index / 2);
    }
}

/// An inclusion proof in a tree over `n` hashes has ⌈log₂ n⌉ steps: one per
/// level above the leaves.
pub proof fn lemma_proof_length(tree: MerkleTree, index: int)
    requires
        tree.valid(),
        0 <= index < tree.hashes().len(),
    ensures
        path_steps(tree.levels(), index).len() == ceil_log2(tree.hashes().len()),
{
    let leaves = leaves_of(tree.hashes());
    lemma_tree_levels_len(leaves);
    lemma_path_steps_len(tree.levels(), index);
}

/// The root text of the tree over `hashes`.
pub open spec fn tree_root_text(hashes: Seq<Seq<char>>) -> Seq<char> {
    hex_text(tree_levels(leaves_of(sorted_hashes(hashes))).last()[0])
}

/// Builds the tree over `hashes`, the inclusion proof for `leaf`, and checks
/// the proof against `root`. By the inclusion law this holds exactly when the
/// tree can be built, holds `leaf`, and has `root` as its root.
pub fn proves_inclusion(hashes: &[String], leaf: &str, root: &str) -> (r: bool)
    ensures
        r == (hashes@.len() > 0 && all_digests(texts(hashes@)) && texts(hashes@).contains(leaf@)
            && root@ == tree_root_text(texts(hashes@))),
{
    match MerkleTree::from_hashes(hashes) {
        Err(_) => false,
        Ok(tree) => match tree.inclusion_proof(leaf) {
            Err(_) => false,
            Ok(p) => {
                proof {
                    let i = choose|i: int|
                        0 <= i < tree.hashes().len() && tree.hashes()[i] == leaf@
                            && p.step_views() == path_steps(tree.levels(), i);
                    lemma_inclusion_proofs_verify(tree, i);
                }
                p.verify(root)
            },
        },
    }
}

} // verus!
