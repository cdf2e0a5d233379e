//! The delegated store: answers the device's client commands during one
//! session from registered Merkle trees and preimages.
use vstd::prelude::*;
use crate::bytes::{append_bytes, copy_bytes, find_bytes, position_of, sub_bytes, views};
use crate::merkle::{
    fold_proof, leaf_hash, leaf_hashes, lemma_proof_reproduces_root, sha256, sha256_of, tree_path,
    tree_root, MerkleTree,
};

verus! {

/// Client command: the preimage of a SHA-256 digest.
pub const GET_PREIMAGE: u8 = 0x08;

/// Client command: a leaf of a Merkle tree and its inclusion proof.
pub const GET_MERKLE_LEAF_PROOF: u8 = 0x10;

/// Client command: the index of a leaf hash in a Merkle tree.
pub const GET_MERKLE_LEAF_INDEX: u8 = 0x11;

/// Client command: the device needs nothing more.
pub const YIELD: u8 = 0x32;

pub const HASH_LEN: usize = 32;

/// Largest payload a single continuation frame can carry.
pub const MAX_PAYLOAD_LEN: usize = 255;

#[derive(Clone, Copy, Debug, PartialEq, Eq, Structural)]
pub enum StoreError {
    /// The request is empty or its arguments have the wrong length.
    Malformed,
    /// The request's tag is not a known client command.
    UnknownCommand(u8),
    /// No registered tree has the requested root.
    TreeNotFound,
    /// No registered preimage has the requested digest.
    PreimageNotFound,
    /// The requested leaf index is not below the tree's leaf count.
    LeafOutOfRange,
    /// The answer does not fit in one frame.
    ResponseTooLong,
}

/// Concatenation of byte strings, in order.
pub open spec fn flatten(p: Seq<Seq<u8>>) -> Seq<u8>
    decreases p.len(),
{
    if p.len() == 0 {
        seq![]
    } else {
        flatten(p.drop_last()) + p.last()
    }
}

pub open spec fn pow256(k: nat) -> nat
    decreases k,
{
    if k == 0 {
        1
    } else {
        256 * pow256((k - 1) as nat)
    }
}

/// The big-endian number in the `k` bytes from `at`.
pub open spec fn be_prefix(b: Seq<u8>, at: int, k: nat) -> nat
    decreases k,
{
    if k == 0 {
        0
    } else {
        be_prefix(b, at, (k - 1) as nat) * 256 + b[at + k - 1] as nat
    }
}

/// The big-endian number in the eight bytes from `at`.
pub open spec fn be_u64(b: Seq<u8>, at: int) -> nat {
    be_prefix(b, at, 8)
}

proof fn lemma_be_prefix_bound(r: nat, d: nat, k: nat)
    requires
        r < pow256(k),
        d < 256,
        k < 8,
    ensures
        r * 256 + d < pow256(k + 1),
        pow256(k + 1) <= 0x1_0000_0000_0000_0000,
{
    reveal_with_fuel(pow256, 9);
    assert(r * 256 + d < pow256(k + 1)) by (nonlinear_arith)
        requires
            r < pow256(k),
            d < 256,
            pow256(k + 1) == 256 * pow256(k),
    ;
    assert(pow256(k + 1) <= pow256(8)) by {
        if k + 1 < 8 {
            lemma_pow256_mono((k + 1) as nat, 8);
        }
    }
}

proof fn lemma_pow256_mono(a: nat, b: nat)
    requires
        a <= b,
    ensures
        pow256(a) <= pow256(b),
    decreases b - a,
{
    if a < b {
        lemma_pow256_mono(a, (b - 1) as nat);
    }
}

/// The eight big-endian bytes of `x`.
pub open spec fn u64_be(x: u64) -> Seq<u8> {
    seq![
        (x >> 56u64) as u8,
        (x >> 48u64) as u8,
        (x >> 40u64) as u8,
        (x >> 32u64) as u8,
        (x >> 24u64) as u8,
        (x >> 16u64) as u8,
        (x >> 8u64) as u8,
        x as u8,
    ]
}

pub open spec fn tree_roots(trees: Seq<Seq<Seq<u8>>>) -> Seq<Seq<u8>> {
    trees.map_values(|t: Seq<Seq<u8>>| tree_root(t))
}

pub open spec fn digests(preimages: Seq<Seq<u8>>) -> Seq<Seq<u8>> {
    preimages.map_values(|p: Seq<u8>| sha256_of(p))
}

/// What the store holds: the leaves of each tree and the preimages, in the
/// order they were added.
pub ghost struct StoreView {
    pub trees: Seq<Seq<Seq<u8>>>,
    pub preimages: Seq<Seq<u8>>,
}

/// Answer to a leaf-proof request: `count | siblings | leaf`.
pub open spec fn leaf_proof_answer(leaves: Seq<Seq<u8>>, index: nat) -> Result<
    Seq<u8>,
    StoreError,
> {
    let path = tree_path(leaves, index);
    let body = flatten(path) + leaves[index as int];
    if path.len() > 255 || body.len() + 1 > 255 {
        Err(StoreError::ResponseTooLong)
    } else {
        Ok(seq![path.len() as u8] + body)
    }
}

/// A leaf-proof answer that fits in a frame carries, after the path length,
/// the sibling path and then exactly the requested leaf; that path combined
/// with the leaf's hash reproduces the root the tree is registered under.
pub proof fn lemma_leaf_answer_proves_root(leaves: Seq<Seq<u8>>, index: nat)
    requires
        index < leaves.len(),
        leaf_proof_answer(leaves, index) is Ok,
    ensures
        leaf_proof_answer(leaves, index) == Ok::<Seq<u8>, StoreError>(
            seq![tree_path(leaves, index).len() as u8] + (flatten(tree_path(leaves, index))
                + leaves[index as int]),
        ),
        fold_proof(leaf_hash(leaves[index as int]), index, leaves.len(), tree_path(leaves, index))
            == tree_root(leaves),
{
    lemma_proof_reproduces_root(leaves, index);
}

/// The payload that answers the client command `req`.
///
/// - `0x08 | digest[32]`: the preimage.
/// - `0x10 | root[32] | index[8]`: the leaf proof of [`leaf_proof_answer`].
/// - `0x11 | root[32] | leaf_hash[32]`: `0x01 | index[8]`, or `0x00` if the
///   tree has no such leaf.
/// - `0x32 | ...`: nothing.
pub open spec fn answer(st: StoreView, req: Seq<u8>) -> Result<Seq<u8>, StoreError> {
    if req.len() == 0 {
        Err(StoreError::Malformed)
    } else if req[0] == GET_PREIMAGE {
        if req.len() != 33 {
            Err(StoreError::Malformed)
        } else {
            match position_of(digests(st.preimages), req.subrange(1, 33)) {
                None => Err(StoreError::PreimageNotFound),
                Some(j) => if st.preimages[j as int].len() > 255 {
                    Err(StoreError::ResponseTooLong)
                } else {
                    Ok(st.preimages[j as int])
                },
            }
        }
    } else if req[0] == GET_MERKLE_LEAF_PROOF {
        if req.len() != 41 {
            Err(StoreError::Malformed)
        } else {
            match position_of(tree_roots(st.trees), req.subrange(1, 33)) {
                None => Err(StoreError::TreeNotFound),
                Some(j) => {
                    let index = be_u64(req, 33);
                    if index >= st.trees[j as int].len() {
                        Err(StoreError::LeafOutOfRange)
                    } else {
                        leaf_proof_answer(st.trees[j as int], index as nat)
                    }
                },
            }
        }
    } else if req[0] == GET_MERKLE_LEAF_INDEX {
        if req.len() != 65 {
            Err(StoreError::Malformed)
        } else {
            match position_of(tree_roots(st.trees), req.subrange(1, 33)) {
                None => Err(StoreError::TreeNotFound),
                Some(j) => match position_of(
                    leaf_hashes(st.trees[j as int]),
                    req.subrange(33, 65),
                ) {
                    None => Ok(seq![0u8]),
                    Some(i) => Ok(seq![1u8] + u64_be(i as u64)),
                },
            }
        }
    } else if req[0] == YIELD {
        Ok(seq![])
    } else {
        Err(StoreError::UnknownCommand(req[0]))
    }
}

/// Trees and preimages registered for one in-flight command.
pub struct DelegatedStore {
    trees: Vec<MerkleTree>,
    roots: Vec<Vec<u8>>,
    preimages: Vec<Vec<u8>>,
    digests: Vec<Vec<u8>>,
}

impl View for DelegatedStore {
    type V = StoreView;

    closed spec fn view(&self) -> StoreView {
        StoreView {
            trees: self.trees@.map_values(|t: MerkleTree| t@),
            preimages: views(self.preimages@),
        }
    }
}

fn flatten_bytes(p: &Vec<Vec<u8>>) -> (r: Vec<u8>)
    ensures
        r@ == flatten(views(p@)),
{
    let mut out: Vec<u8> = Vec::new();
    let mut i: usize = 0;
    while i < p.len()
        invariant
            i <= p@.len(),
            out@ == flatten(views(p@).subrange(0, i as int)),
        decreases p@.len() - i,
    {
        append_bytes(&mut out, &p[i]);
        i = i + 1;
        assert(views(p@).subrange(0, i as int).drop_last() =~= views(p@).subrange(0, i - 1));
    }
    assert(views(p@).subrange(0, i as int) =~= views(p@));
    out
}

fn read_u64(b: &Vec<u8>, at: usize) -> (r: u64)
    requires
        at + 8 <= b@.len(),
    ensures
        r == be_u64(b@, at as int),
{
    let len = b.len();
    let mut r: u64 = 0;
    let mut k: usize = 0;
    while k < 8
        invariant
            k <= 8,
            at + 8 <= b@.len() == len,
            (r as nat) == be_prefix(b@, at as int, k as nat),
            (r as nat) < pow256(k as nat),
        decreases 8 - k,
    {
        proof {
            lemma_be_prefix_bound(r as nat, b@[at + k] as nat, k as nat);
        }
        r = r * 256 + b[at + k] as u64;
        k = k + 1;
    }
    r
}

fn write_u64(out: &mut Vec<u8>, x: u64)
    ensures
        final(out)@ == old(out)@ + u64_be(x),
{
    out.push((x >> 56u64) as u8);
    out.push((x >> 48u64) as u8);
    out.push((x >> 40u64) as u8);
    out.push((x >> 32u64) as u8);
    out.push((x >> 24u64) as u8);
    out.push((x >> 16u64) as u8);
    out.push((x >> 8u64) as u8);
    out.push(x as u8);
    assert(final(out)@ =~= old(out)@ + u64_be(x));
}

impl DelegatedStore {
    pub closed spec fn wf(&self) -> bool {
        &&& self.trees@.len() == self.roots@.len()
        &&& forall|i: int| 0 <= i < self.trees@.len() ==> (#[trigger] self.trees@[i]).wf()
        &&& views(self.roots@) == tree_roots(self@.trees)
        &&& views(self.digests@) == digests(self@.preimages)
    }

    pub fn new() -> (s: DelegatedStore)
        ensures
            s.wf(),
            s@.trees.len() == 0,
            s@.preimages.len() == 0,
    {
        let s = DelegatedStore {
            trees: Vec::new(),
            roots: Vec::new(),
            preimages: Vec::new(),
            digests: Vec::new(),
        };
        assert(s@.trees =~= seq![]);
        assert(views(s.roots@) =~= tree_roots(s@.trees));
        assert(views(s.digests@) =~= digests(s@.preimages));
        s
    }

    /// Registers a tree; the device refers to it by its root.
    pub fn add_tree(&mut self, tree: MerkleTree)
        requires
            old(self).wf(),
            tree.wf(),
        ensures
            final(self).wf(),
            final(self)@.trees == old(self)@.trees.push(tree@),
            final(self)@.preimages == old(self)@.preimages,
    {
        let root = tree.root();
        let ghost t = tree@;
        self.trees.push(tree);
        self.roots.push(root);
        assert(self@.trees =~= old(self)@.trees.push(t));
        assert(views(self.roots@) =~= views(old(self).roots@).push(root@));
        assert(tree_roots(old(self)@.trees.push(t)) =~= tree_roots(old(self)@.trees).push(tree_root(t)));
        assert forall|i: int| 0 <= i < self.trees@.len() implies (#[trigger] self.trees@[i]).wf() by {
            if i < old(self).trees@.len() {
                assert(self.trees@[i] == old(self).trees@[i]);
            }
        }
        assert(views(self.roots@) =~= tree_roots(self@.trees));
    }

    /// Registers a preimage; the device refers to it by its SHA-256 digest.
    pub fn add_preimage(&mut self, data: Vec<u8>)
        requires
            old(self).wf(),
        ensures
            final(self).wf(),
            final(self)@.trees == old(self)@.trees,
            final(self)@.preimages == old(self)@.preimages.push(data@),
    {
        let digest = sha256(&data);
        let ghost d = data@;
        self.preimages.push(data);
        self.digests.push(digest);
        assert(self@.preimages =~= old(self)@.preimages.push(d));
        assert(self@.trees =~= old(self)@.trees);
        assert(views(self.digests@) =~= views(old(self).digests@).push(digest@));
        assert(digests(old(self)@.preimages.push(d)) =~= digests(old(self)@.preimages).push(sha256_of(d)));
        assert(views(self.digests@) =~= digests(self@.preimages));
    }

    fn leaf_proof(&self, j: usize, index: u64) -> (r: Result<Vec<u8>, StoreError>)
        requires
            self.wf(),
            j < self@.trees.len(),
            index < self@.trees[j as int].len(),
        ensures
            r matches Ok(v) ==> leaf_proof_answer(self@.trees[j as int], index as nat) == Ok::<
                Seq<u8>,
                StoreError,
            >(v@),
            r is Err ==> r == Err::<Vec<u8>, StoreError>(StoreError::ResponseTooLong)
                && leaf_proof_answer(self@.trees[j as int], index as nat) is Err,
    {
        let tree = &self.trees[j];
        assert(tree@ == self@.trees[j as int]);
        assert(tree.wf());
        let n = tree.len();
        match tree.inclusion_proof(index as usize) {
            Err(_) => Err(StoreError::ResponseTooLong),
            Ok((leaf, path)) => {
                let flat = flatten_bytes(&path);
                if path.len() > MAX_PAYLOAD_LEN || flat.len() >= MAX_PAYLOAD_LEN || leaf.len()
                    >= MAX_PAYLOAD_LEN - flat.len() {
                    Err(StoreError::ResponseTooLong)
                } else {
                    let mut out: Vec<u8> = Vec::new();
                    out.push(path.len() as u8);
                    append_bytes(&mut out, &flat);
                    append_bytes(&mut out, &leaf);
                    assert(out@ =~= seq![path@.len() as u8] + (flat@ + leaf@));
                    Ok(out)
                }
            },
        }
    }

    /// Answers one client command with the payload of the continuation frame.
    pub fn execute(&self, req: &Vec<u8>) -> (r: Result<Vec<u8>, StoreError>)
        requires
            self.wf(),
        ensures
            r matches Ok(v) ==> answer(self@, req@) == Ok::<Seq<u8>, StoreError>(v@),
            r matches Err(e) ==> answer(self@, req@) == Err::<Seq<u8>, StoreError>(e),
            r matches Ok(v) ==> v@.len() <= 255,
    {
        if req.len() == 0 {
            return Err(StoreError::Malformed);
        }
        let tag = req[0];
        assert(forall|j: int| 0 <= j < self.trees@.len() ==> self@.trees[j] == (#[trigger] self.trees@[j])@);
        assert(forall|j: int| 0 <= j < self.preimages@.len() ==> self@.preimages[j] == (#[trigger] self.preimages@[j])@);
        if tag == GET_PREIMAGE {
            if req.len() != 1 + HASH_LEN {
                return Err(StoreError::Malformed);
            }
            let digest = sub_bytes(req, 1, 33);
            assert(digests(self@.preimages).len() == self.preimages@.len());
            match find_bytes(&self.digests, &digest) {
                None => Err(StoreError::PreimageNotFound),
                Some(j) => {
                    if self.preimages[j].len() > MAX_PAYLOAD_LEN {
                        Err(StoreError::ResponseTooLong)
                    } else {
                        Ok(copy_bytes(&self.preimages[j]))
                    }
                },
            }
        } else if tag == GET_MERKLE_LEAF_PROOF {
            if req.len() != 41 {
                return Err(StoreError::Malformed);
            }
            let root = sub_bytes(req, 1, 33);
            match find_bytes(&self.roots, &root) {
                None => Err(StoreError::TreeNotFound),
                Some(j) => {
                    assert(self.trees@[j as int].wf());
                    let index = read_u64(req, 33);
                    if index >= self.trees[j].len() as u64 {
                        Err(StoreError::LeafOutOfRange)
                    } else {
                        self.leaf_proof(j, index)
                    }
                },
            }
        } else if tag == GET_MERKLE_LEAF_INDEX {
            if req.len() != 65 {
                return Err(StoreError::Malformed);
            }
            let root = sub_bytes(req, 1, 33);
            let hash = sub_bytes(req, 33, 65);
            match find_bytes(&self.roots, &root) {
                None => Err(StoreError::TreeNotFound),
                Some(j) => {
                    let tree = &self.trees[j];
                    assert(tree.wf());
                    match tree.leaf_index(&hash) {
                        None => {
                            let mut out: Vec<u8> = Vec::new();
                            out.push(0u8);
                            assert(out@ =~= seq![0u8]);
                            Ok(out)
                        },
                        Some(i) => {
                            let mut out: Vec<u8> = Vec::new();
                            out.push(1u8);
                            write_u64(&mut out, i as u64);
                            Ok(out)
                        },
                    }
                },
            }
        } else if tag == YIELD {
            let out: Vec<u8> = Vec::new();
            assert(out@ =~= seq![]);
            Ok(out)
        } else {
            Err(StoreError::UnknownCommand(tag))
        }
    }
}

} // verus!
