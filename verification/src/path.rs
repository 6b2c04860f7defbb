//! The bit path that a key takes through a content-addressed map, and the
//! hashes of the nodes on it.

use crate::hash::{sha256_digest, HashAlgorithm, HashView};
use vstd::prelude::*;

verus! {

/// The path of a key: the bits of the key's digest, the highest bit of the
/// first byte first. The path hands out its bits from both ends until the
/// ends meet.
pub struct Path {
    all: crate::hash::Hash,
    lhs: usize,
    rhs: usize,
}

/// The mathematical value of a `Path`: the digest, and the positions of the
/// next bit from the head and of the bit behind the next one from the tail.
pub ghost struct PathView {
    pub all: Seq<u8>,
    pub lhs: int,
    pub rhs: int,
}

/// A leaf of the map: a key and its value.
pub struct Leaf<K>(pub K, pub Vec<u8>);

/// An inner node of the map, known here by its hash alone.
pub struct Fork {
    pub hash: crate::hash::Hash,
}

/// A node of the map.
pub enum Node<K> {
    Leaf(Leaf<K>),
    Fork(Fork),
}

/// A node together with its hash.
pub struct Link<K> {
    pub hash: crate::hash::Hash,
    pub node: Node<K>,
}

/// The bit at position `at` of `all`, counted from the highest bit of the
/// first byte.
pub open spec fn bit_at(all: Seq<u8>, at: int) -> bool {
    (all[at / 8] >> ((7 - at % 8) as u8)) & 1u8 == 1u8
}

/// The bytes that are hashed for a leaf on the path of the key with the digest
/// `all`: the byte 0xFF, then `all`, then the value.
pub open spec fn leaf_preimage(all: Seq<u8>, value: Seq<u8>) -> Seq<u8> {
    seq![0xffu8] + all + value
}

/// The digest of a leaf on the path of the key with the digest `all`.
pub open spec fn leaf_hash(all: Seq<u8>, value: Seq<u8>) -> HashView {
    HashView { algorithm: HashAlgorithm::SHA256, bytes: sha256_digest(leaf_preimage(all, value)) }
}

/// The bytes that are hashed for a leaf.
pub fn leaf_data(all: &[u8], value: &[u8]) -> (data: Vec<u8>)
    ensures
        data@ == leaf_preimage(all@, value@),
{
    let mut data: Vec<u8> = Vec::new();
    data.push(0xff);
    data.extend_from_slice(all);
    data.extend_from_slice(value);
    assert(data@ =~= leaf_preimage(all@, value@));
    data
}

impl PathView {
    /// The path of a digest before any bit was taken.
    pub open spec fn fresh(all: Seq<u8>) -> PathView {
        PathView { all, lhs: 0, rhs: 8 * all.len() as int }
    }

    /// The ends have not crossed and lie within the digest.
    pub open spec fn wf(self) -> bool {
        0 <= self.lhs <= self.rhs <= 8 * self.all.len()
    }

    /// The number of bits that are left.
    pub open spec fn len(self) -> int {
        self.rhs - self.lhs
    }

    /// The next bit from the head, and the path behind it; past the end,
    /// nothing, and the path as it is.
    pub open spec fn next(self) -> (Option<bool>, PathView) {
        if self.lhs == self.rhs {
            (None, self)
        } else {
            (Some(bit_at(self.all, self.lhs)), PathView { lhs: self.lhs + 1, ..self })
        }
    }

    /// The next bit from the tail, and the path before it; past the end,
    /// nothing, and the path as it is.
    pub open spec fn next_back(self) -> (Option<bool>, PathView) {
        if self.lhs == self.rhs {
            (None, self)
        } else {
            (Some(bit_at(self.all, self.rhs - 1)), PathView { rhs: self.rhs - 1, ..self })
        }
    }

    /// The path after `count` bits were taken from the head.
    pub open spec fn after_next(self, count: nat) -> PathView
        decreases count,
    {
        if count == 0 {
            self
        } else {
            self.next().1.after_next((count - 1) as nat)
        }
    }

    /// The path after `count` bits were taken from the tail.
    pub open spec fn after_next_back(self, count: nat) -> PathView
        decreases count,
    {
        if count == 0 {
            self
        } else {
            self.next_back().1.after_next_back((count - 1) as nat)
        }
    }
}

/// Taking bits from the head moves the head by as many positions, as long as
/// bits are left.
pub proof fn lemma_after_next(path: PathView, count: nat)
    requires
        path.wf(),
        count <= path.len(),
    ensures
        path.after_next(count) == (PathView { lhs: path.lhs + count, ..path }),
    decreases count,
{
    if count > 0 {
        lemma_after_next(path.next().1, (count - 1) as nat);
    }
}

/// Taking bits from the tail moves the tail by as many positions, as long as
/// bits are left.
pub proof fn lemma_after_next_back(path: PathView, count: nat)
    requires
        path.wf(),
        count <= path.len(),
    ensures
        path.after_next_back(count) == (PathView { rhs: path.rhs - count, ..path }),
    decreases count,
{
    if count > 0 {
        lemma_after_next_back(path.next_back().1, (count - 1) as nat);
    }
}

/// Past the end, taking bits from the head changes nothing more: the head
/// stays where the tail is.
pub proof fn lemma_after_next_end(path: PathView, count: nat)
    requires
        path.wf(),
        count >= path.len(),
    ensures
        path.after_next(count) == (PathView { lhs: path.rhs, ..path }),
    decreases count,
{
    if count > 0 {
        lemma_after_next_end(path.next().1, (count - 1) as nat);
    }
}

/// Iterated forward, the path of a key emits eight bits for each byte of the
/// key's digest and then no more; the bit at position `i` is the bit
/// `7 - i % 8` of the byte `i / 8` of the digest.
pub proof fn lemma_forward_bits(key: Seq<u8>, i: nat)
    ensures
        ({
            let all = sha256_digest(key);
            let emitted = PathView::fresh(all).after_next(i).next().0;
            &&& i < 8 * all.len() ==> emitted == Some(
                (all[i as int / 8] >> ((7 - i as int % 8) as u8)) & 1u8 == 1u8,
            )
            &&& i >= 8 * all.len() ==> emitted is None
        }),
{
    let fresh = PathView::fresh(sha256_digest(key));
    if i < 8 * sha256_digest(key).len() {
        lemma_after_next(fresh, i);
    } else {
        lemma_after_next_end(fresh, i);
    }
}

/// Iterated backward, the path of a key emits at index `j`, counted from the
/// tail, the bit at position `8 * len - 1 - j` of the key's digest, `len`
/// being the length of the digest.
pub proof fn lemma_backward_bits(key: Seq<u8>, j: nat)
    requires
        j < 8 * sha256_digest(key).len(),
    ensures
        ({
            let all = sha256_digest(key);
            PathView::fresh(all).after_next_back(j).next_back().0 == Some(
                bit_at(all, 8 * all.len() - 1 - j),
            )
        }),
{
    lemma_after_next_back(PathView::fresh(sha256_digest(key)), j);
}

/// The length never exceeds eight times the length of the digest, and each
/// bit taken, from either end, makes it one less. Once it is zero nothing
/// comes from either end and the path stays as it is: the ends meet and do not
/// cross.
pub proof fn lemma_length(path: PathView)
    requires
        path.wf(),
    ensures
        0 <= path.len() <= 8 * path.all.len(),
        path.next().1.wf(),
        path.next_back().1.wf(),
        path.len() > 0 ==> path.next().0 is Some && path.next().1.len() == path.len() - 1,
        path.len() > 0 ==> path.next_back().0 is Some && path.next_back().1.len() == path.len()
            - 1,
        path.len() == 0 ==> path.next() == (None::<bool>, path) && path.next_back() == (
            None::<bool>,
            path,
        ),
{
}

/// Taking bits, from either end and however many, leaves the digest as it is.
pub proof fn lemma_digest_kept(path: PathView, front: nat, back: nat)
    ensures
        path.after_next(front).all == path.all,
        path.after_next(front).after_next_back(back).all == path.all,
    decreases front + back,
{
    if front > 0 {
        lemma_digest_kept(path.next().1, (front - 1) as nat, back);
    } else if back > 0 {
        lemma_digest_kept(path.next_back().1, 0, (back - 1) as nat);
    }
}

/// The hash of a leaf on the path of a key is the digest of the byte 0xFF,
/// then the digest of the key, then the value, whatever bits were taken from
/// the path before.
pub proof fn lemma_leaf_hash(key: Seq<u8>, value: Seq<u8>, front: nat, back: nat)
    ensures
        leaf_hash(
            PathView::fresh(sha256_digest(key)).after_next(front).after_next_back(back).all,
            value,
        ).bytes == sha256_digest(seq![0xffu8] + sha256_digest(key) + value),
{
    lemma_digest_kept(PathView::fresh(sha256_digest(key)), front, back);
}

/// Bits taken from the head and bits taken from the tail do not overlap: after
/// `front` from the head and `back` from the tail, no more than there are bits
/// together, the bits between the two are left.
pub proof fn lemma_ends_meet(all: Seq<u8>, front: nat, back: nat)
    requires
        front + back <= 8 * all.len(),
    ensures
        PathView::fresh(all).after_next(front).after_next_back(back) == (PathView {
            all,
            lhs: front as int,
            rhs: 8 * all.len() - back,
        }),
        PathView::fresh(all).after_next(front).after_next_back(back).len() == 8 * all.len() - front
            - back,
{
    lemma_after_next(PathView::fresh(all), front);
    lemma_after_next_back(PathView::fresh(all).after_next(front), back);
}

impl View for Path {
    type V = PathView;

    closed spec fn view(&self) -> PathView {
        PathView { all: self.all.bytes@, lhs: self.lhs as int, rhs: self.rhs as int }
    }
}

impl Path {
    #[verifier::type_invariant]
    spec fn inv(&self) -> bool {
        &&& self.all.bytes@.len() == 32
        &&& self.all.algorithm == HashAlgorithm::SHA256
        &&& self.lhs <= self.rhs <= 8 * self.all.bytes@.len()
    }

    fn get(&self, at: usize) -> (bit: bool)
        requires
            at < 8 * self.all.bytes@.len(),
        ensures
            bit == bit_at(self.all.bytes@, at as int),
    {
        let shift: u8 = (7 - at % 8) as u8;
        let byte: usize = at / 8;
        ((self.all.bytes[byte] >> shift) & 1) == 1
    }

    /// The path of a key with the digest `all`, none of its bits taken yet.
    pub fn of_digest(all: crate::hash::Hash) -> (path: Path)
        requires
            all@.wf(),
        ensures
            path@ == PathView::fresh(all@.bytes),
            path@.wf(),
            path@.len() == 256,
    {
        Path { lhs: 0, rhs: all.bytes.len() * 8, all }
    }

    /// The path of `key`: the bits of its SHA-256 digest, none taken yet.
    pub fn from(key: &[u8]) -> (path: Path)
        ensures
            path@ == PathView::fresh(sha256_digest(key@)),
            path@.wf(),
            path@.len() == 256,
    {
        Path::of_digest(HashAlgorithm::SHA256.digest(key))
    }

    /// The digest of a leaf with the value `value` on this path.
    pub fn hash(&self, value: &[u8]) -> (hash: crate::hash::Hash)
        ensures
            hash@ == leaf_hash(self@.all, value@),
            hash@.wf(),
    {
        let data = leaf_data(self.all.bytes.as_slice(), value);
        HashAlgorithm::SHA256.digest(data.as_slice())
    }

    /// The link to `node` on this path: the node with the hash of a leaf of
    /// its value where it is a leaf, and with its own hash where it is a fork.
    pub fn link<K>(&self, node: Node<K>) -> (link: Link<K>)
        ensures
            link.node == node,
            link.hash@ == (match node {
                Node::Leaf(leaf) => leaf_hash(self@.all, leaf.1@),
                Node::Fork(fork) => fork.hash@,
            }),
    {
        let hash = match &node {
            Node::Leaf(leaf) => self.hash(leaf.1.as_slice()),
            Node::Fork(fork) => fork.hash.copy(),
        };
        Link { hash, node }
    }

    /// The number of bits that are left.
    pub fn len(&self) -> (len: usize)
        ensures
            len == self@.len(),
            self@.wf(),
            len <= 256,
    {
        proof {
            use_type_invariant(self);
        }
        self.rhs - self.lhs
    }

    /// The next bit from the head.
    pub fn next(&mut self) -> (bit: Option<bool>)
        ensures
            (bit, final(self)@) == old(self)@.next(),
            old(self)@.wf(),
            final(self)@.wf(),
    {
        proof {
            use_type_invariant(&*self);
        }
        if self.lhs == self.rhs {
            return None;
        }
        self.lhs += 1;
        Some(self.get(self.lhs - 1))
    }

    /// The next bit from the tail.
    pub fn next_back(&mut self) -> (bit: Option<bool>)
        ensures
            (bit, final(self)@) == old(self)@.next_back(),
            old(self)@.wf(),
            final(self)@.wf(),
    {
        proof {
            use_type_invariant(&*self);
        }
        if self.lhs == self.rhs {
            return None;
        }
        self.rhs -= 1;
        Some(self.get(self.rhs))
    }
}

} // verus!
