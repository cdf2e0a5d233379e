//! Merkle trees over an ordered sequence of leaves, with inclusion proofs.
//!
//! Leaves are hashed as `SHA256(0x00 | leaf)` and inner nodes as
//! `SHA256(0x01 | left | right)`. A tree of `n >= 2` leaves splits after the
//! largest power of two strictly below `n`.
use vstd::prelude::*;
use crate::bytes::{append_bytes, copy_bytes, find_bytes, position_of, views};

verus! {

/// The SHA-256 digest of a byte string.
pub uninterp spec fn sha256_of(data: Seq<u8>) -> Seq<u8>;

/// Relies on `bitcoin::hashes::sha256::Hash::hash` for the SHA-256 digest of
/// the input, returned as its 32 bytes.
#[verifier::external_body]
pub(crate) fn sha256(data: &Vec<u8>) -> (r: Vec<u8>)
    ensures
        r@ == sha256_of(data@),
        r@.len() == 32,
{
    let h = <bitcoin::hashes::sha256::Hash as bitcoin::hashes::Hash>::hash(data.as_slice());
    <bitcoin::hashes::sha256::Hash as bitcoin::hashes::Hash>::to_byte_array(h).to_vec()
}

pub open spec fn leaf_hash(leaf: Seq<u8>) -> Seq<u8> {
    sha256_of(seq![0u8] + leaf)
}

pub open spec fn node_hash(left: Seq<u8>, right: Seq<u8>) -> Seq<u8> {
    sha256_of(seq![1u8] + left + right)
}

pub open spec fn leaf_hashes(leaves: Seq<Seq<u8>>) -> Seq<Seq<u8>> {
    leaves.map_values(|l: Seq<u8>| leaf_hash(l))
}

/// Doubles `k` while twice it stays below `n`.
pub open spec fn split_from(k: nat, n: nat) -> nat
    decreases n - k,
{
    if k == 0 || 2 * k >= n {
        k
    } else {
        split_from(2 * k, n)
    }
}

/// Size of the left subtree of a tree with `n >= 2` leaves: the largest power
/// of two strictly below `n`.
pub open spec fn split(n: nat) -> nat {
    split_from(1, n)
}

proof fn lemma_split_from(k: nat, n: nat)
    requires
        1 <= k < n,
    ensures
        k <= split_from(k, n) < n,
        n <= 2 * split_from(k, n),
    decreases n - k,
{
    if 2 * k < n {
        lemma_split_from(2 * k, n);
    }
}

pub proof fn lemma_split(n: nat)
    requires
        n >= 2,
    ensures
        1 <= split(n) < n,
        n <= 2 * split(n),
{
    lemma_split_from(1, n);
}

#[via_fn]
proof fn root_of_decreases(hs: Seq<Seq<u8>>) {
    if hs.len() >= 2 {
        lemma_split(hs.len());
    }
}

/// Root over a sequence of leaf hashes; the empty tree hashes the empty string.
pub open spec fn root_of(hs: Seq<Seq<u8>>) -> Seq<u8>
    decreases hs.len(),
    via root_of_decreases
{
    if hs.len() == 0 {
        sha256_of(seq![])
    } else if hs.len() == 1 {
        hs[0]
    } else {
        let k = split(hs.len()) as int;
        node_hash(root_of(hs.take(k)), root_of(hs.skip(k)))
    }
}

#[via_fn]
proof fn path_of_decreases(hs: Seq<Seq<u8>>, i: nat) {
    if hs.len() >= 2 {
        lemma_split(hs.len());
    }
}

/// Sibling hashes from the leaf at `i` up to the root, nearest first.
pub open spec fn path_of(hs: Seq<Seq<u8>>, i: nat) -> Seq<Seq<u8>>
    decreases hs.len(),
    via path_of_decreases
{
    if hs.len() <= 1 {
        seq![]
    } else {
        let k = split(hs.len());
        if i < k {
            path_of(hs.take(k as int), i).push(root_of(hs.skip(k as int)))
        } else {
            path_of(hs.skip(k as int), (i - k) as nat).push(root_of(hs.take(k as int)))
        }
    }
}

#[via_fn]
proof fn fold_proof_decreases(h: Seq<u8>, i: nat, n: nat, p: Seq<Seq<u8>>) {
    if n >= 2 {
        lemma_split(n);
    }
}

/// The root that a leaf hash `h` at index `i` of an `n`-leaf tree reaches
/// when combined with the sibling path `p`.
pub open spec fn fold_proof(h: Seq<u8>, i: nat, n: nat, p: Seq<Seq<u8>>) -> Seq<u8>
    decreases n,
    via fold_proof_decreases
{
    if n <= 1 || p.len() == 0 {
        h
    } else {
        let k = split(n);
        if i < k {
            node_hash(fold_proof(h, i, k, p.drop_last()), p.last())
        } else {
            node_hash(p.last(), fold_proof(h, (i - k) as nat, (n - k) as nat, p.drop_last()))
        }
    }
}

/// Root of the tree built over these leaves.
pub open spec fn tree_root(leaves: Seq<Seq<u8>>) -> Seq<u8> {
    root_of(leaf_hashes(leaves))
}

/// Inclusion proof of the leaf at index `i`.
pub open spec fn tree_path(leaves: Seq<Seq<u8>>, i: nat) -> Seq<Seq<u8>> {
    path_of(leaf_hashes(leaves), i)
}

proof fn lemma_fold_path(hs: Seq<Seq<u8>>, i: nat)
    requires
        i < hs.len(),
    ensures
        fold_proof(hs[i as int], i, hs.len(), path_of(hs, i)) == root_of(hs),
    decreases hs.len(),
{
    if hs.len() >= 2 {
        let n = hs.len();
        lemma_split(n);
        let k = split(n);
        let p = path_of(hs, i);
        if i < k {
            let sub = hs.take(k as int);
            lemma_fold_path(sub, i);
            assert(p.drop_last() =~= path_of(sub, i));
            assert(sub[i as int] == hs[i as int]);
        } else {
            let sub = hs.skip(k as int);
            lemma_fold_path(sub, (i - k) as nat);
            assert(p.drop_last() =~= path_of(sub, (i - k) as nat));
            assert(sub[i - k] == hs[i as int]);
        }
    }
}

/// For every index `i` below the leaf count, the proof of leaf `i` combined
/// with that leaf's hash reproduces the root of the tree.
pub proof fn lemma_proof_reproduces_root(leaves: Seq<Seq<u8>>, i: nat)
    requires
        i < leaves.len(),
    ensures
        fold_proof(leaf_hash(leaves[i as int]), i, leaves.len(), tree_path(leaves, i))
            == tree_root(leaves),
{
    lemma_fold_path(leaf_hashes(leaves), i);
}

#[derive(Clone, Copy, Debug, PartialEq, Eq, Structural)]
pub enum MerkleError {
    IndexOutOfRange,
}

fn split_point(n: usize) -> (k: usize)
    requires
        n >= 2,
    ensures
        k == split(n as nat),
{
    let mut k: usize = 1;
    while k < n - k
        invariant
            1 <= k < n,
            split_from(k as nat, n as nat) == split(n as nat),
        decreases n - k,
    {
        k = k * 2;
    }
    k
}

fn hash_leaf(leaf: &Vec<u8>) -> (r: Vec<u8>)
    ensures
        r@ == leaf_hash(leaf@),
{
    let mut buf: Vec<u8> = Vec::new();
    buf.push(0u8);
    append_bytes(&mut buf, leaf);
    sha256(&buf)
}

fn hash_node(left: &Vec<u8>, right: &Vec<u8>) -> (r: Vec<u8>)
    ensures
        r@ == node_hash(left@, right@),
{
    let mut buf: Vec<u8> = Vec::new();
    buf.push(1u8);
    append_bytes(&mut buf, left);
    append_bytes(&mut buf, right);
    sha256(&buf)
}

fn subtree_root(hs: &Vec<Vec<u8>>, lo: usize, hi: usize) -> (r: Vec<u8>)
    requires
        lo <= hi <= hs@.len(),
    ensures
        r@ == root_of(views(hs@).subrange(lo as int, hi as int)),
    decreases hi - lo,
{
    let ghost s = views(hs@).subrange(lo as int, hi as int);
    if hi - lo == 0 {
        let empty: Vec<u8> = Vec::new();
        assert(empty@ =~= seq![]);
        sha256(&empty)
    } else if hi - lo == 1 {
        copy_bytes(&hs[lo])
    } else {
        let k = split_point(hi - lo);
        proof {
            lemma_split((hi - lo) as nat);
        }
        let left = subtree_root(hs, lo, lo + k);
        let right = subtree_root(hs, lo + k, hi);
        assert(s.take(k as int) =~= views(hs@).subrange(lo as int, lo + k));
        assert(s.skip(k as int) =~= views(hs@).subrange(lo + k, hi as int));
        hash_node(&left, &right)
    }
}

fn subtree_path(hs: &Vec<Vec<u8>>, lo: usize, hi: usize, i: usize) -> (r: Vec<Vec<u8>>)
    requires
        lo <= i < hi <= hs@.len(),
    ensures
        views(r@) == path_of(views(hs@).subrange(lo as int, hi as int), (i - lo) as nat),
    decreases hi - lo,
{
    let ghost s = views(hs@).subrange(lo as int, hi as int);
    if hi - lo == 1 {
        let r: Vec<Vec<u8>> = Vec::new();
        assert(views(r@) =~= seq![]);
        r
    } else {
        let k = split_point(hi - lo);
        proof {
            lemma_split((hi - lo) as nat);
        }
        assert(s.take(k as int) =~= views(hs@).subrange(lo as int, lo + k));
        assert(s.skip(k as int) =~= views(hs@).subrange(lo + k, hi as int));
        if i - lo < k {
            let mut p = subtree_path(hs, lo, lo + k, i);
            let sib = subtree_root(hs, lo + k, hi);
            let ghost before = p@;
            p.push(sib);
            assert(views(p@) =~= views(before).push(sib@));
            p
        } else {
            let mut p = subtree_path(hs, lo + k, hi, i);
            let sib = subtree_root(hs, lo, lo + k);
            let ghost before = p@;
            p.push(sib);
            assert(views(p@) =~= views(before).push(sib@));
            p
        }
    }
}

/// A Merkle tree over an ordered, fixed sequence of leaves.
pub struct MerkleTree {
    leaves: Vec<Vec<u8>>,
    hashes: Vec<Vec<u8>>,
    root: Vec<u8>,
}

impl View for MerkleTree {
    type V = Seq<Seq<u8>>;

    closed spec fn view(&self) -> Seq<Seq<u8>> {
        views(self.leaves@)
    }
}

impl MerkleTree {
    pub closed spec fn wf(&self) -> bool {
        &&& views(self.hashes@) == leaf_hashes(self@)
        &&& self.root@ == tree_root(self@)
    }

    pub fn new(leaves: Vec<Vec<u8>>) -> (t: MerkleTree)
        ensures
            t.wf(),
            t@ == views(leaves@),
    {
        let mut hashes: Vec<Vec<u8>> = Vec::new();
        let mut i: usize = 0;
        while i < leaves.len()
            invariant
                i <= leaves@.len(),
                views(hashes@) == leaf_hashes(views(leaves@)).subrange(0, i as int),
            decreases leaves@.len() - i,
        {
            let h = hash_leaf(&leaves[i]);
            let ghost before = hashes@;
            hashes.push(h);
            assert(views(hashes@) =~= views(before).push(h@));
            assert(views(leaves@)[i as int] == leaves@[i as int]@);
            i = i + 1;
            assert(views(hashes@) =~= leaf_hashes(views(leaves@)).subrange(0, i as int));
        }
        assert(leaf_hashes(views(leaves@)).subrange(0, i as int) =~= leaf_hashes(views(leaves@)));
        let root = subtree_root(&hashes, 0, hashes.len());
        assert(views(hashes@).subrange(0, hashes@.len() as int) =~= views(hashes@));
        MerkleTree { leaves, hashes, root }
    }

    pub fn len(&self) -> (r: usize)
        ensures
            r == self@.len(),
    {
        self.leaves.len()
    }

    pub fn root(&self) -> (r: Vec<u8>)
        requires
            self.wf(),
        ensures
            r@ == tree_root(self@),
    {
        copy_bytes(&self.root)
    }

    pub fn leaf(&self, index: usize) -> (r: Option<Vec<u8>>)
        ensures
            index >= self@.len() ==> r is None,
            index < self@.len() ==> (r matches Some(l) && l@ == self@[index as int]),
    {
        if index < self.leaves.len() {
            Some(copy_bytes(&self.leaves[index]))
        } else {
            None
        }
    }

    /// The leaf at `index` and its sibling path to the root.
    pub fn inclusion_proof(&self, index: usize) -> (r: Result<(Vec<u8>, Vec<Vec<u8>>), MerkleError>)
        requires
            self.wf(),
        ensures
            index >= self@.len() ==> r == Err::<(Vec<u8>, Vec<Vec<u8>>), MerkleError>(
                MerkleError::IndexOutOfRange,
            ),
            index < self@.len() ==> (r matches Ok((leaf, path)) && leaf@ == self@[index as int]
                && views(path@) == tree_path(self@, index as nat)),
    {
        if index >= self.leaves.len() {
            return Err(MerkleError::IndexOutOfRange);
        }
        let leaf = copy_bytes(&self.leaves[index]);
        let path = subtree_path(&self.hashes, 0, self.hashes.len(), index);
        assert(views(self.hashes@).subrange(0, self.hashes@.len() as int) =~= views(self.hashes@));
        Ok((leaf, path))
    }

    /// Index of the first leaf whose hash is `hash`.
    pub fn leaf_index(&self, hash: &Vec<u8>) -> (r: Option<usize>)
        requires
            self.wf(),
        ensures
            r matches Some(j) ==> j < self@.len() && position_of(leaf_hashes(self@), hash@) == Some(
                j as nat,
            ),
            r is None ==> position_of(leaf_hashes(self@), hash@) is None,
    {
        find_bytes(&self.hashes, hash)
    }
}

fn fold_prefix(h: Vec<u8>, i: usize, n: usize, siblings: &Vec<Vec<u8>>, m: usize) -> (r: Vec<u8>)
    requires
        m <= siblings@.len(),
    ensures
        r@ == fold_proof(h@, i as nat, n as nat, views(siblings@).subrange(0, m as int)),
    decreases n,
{
    let ghost p = views(siblings@).subrange(0, m as int);
    if n <= 1 || m == 0 {
        h
    } else {
        let k = split_point(n);
        proof {
            lemma_split(n as nat);
        }
        assert(p.drop_last() =~= views(siblings@).subrange(0, m - 1));
        if i < k {
            let inner = fold_prefix(h, i, k, siblings, m - 1);
            hash_node(&inner, &siblings[m - 1])
        } else {
            let inner = fold_prefix(h, i - k, n - k, siblings, m - 1);
            hash_node(&siblings[m - 1], &inner)
        }
    }
}

/// The root that `leaf`, at `index` of an `n`-leaf tree, reaches through
/// the sibling path `siblings`.
pub fn root_from_proof(leaf: &Vec<u8>, index: usize, n: usize, siblings: &Vec<Vec<u8>>) -> (r: Vec<u8>)
    ensures
        r@ == fold_proof(leaf_hash(leaf@), index as nat, n as nat, views(siblings@)),
{
    let h = hash_leaf(leaf);
    let r = fold_prefix(h, index, n, siblings, siblings.len());
    assert(views(siblings@).subrange(0, siblings@.len() as int) =~= views(siblings@));
    r
}

} // verus!
