use sha2::Digest;
use warg::path::{leaf_data, Fork, Leaf, Node, Path};

fn sha256(data: &[u8]) -> Vec<u8> {
    sha2::Sha256::digest(data).to_vec()
}

#[test]
#[allow(clippy::identity_op)]
fn test() {
    let mut path = Path::from("foo".as_bytes());
    let mut hash = sha2::Sha256::digest("foo").into_iter().map(usize::from);

    for _ in 0..hash.len() / 2 {
        let lhs = hash.next().unwrap();
        assert_eq!((lhs >> 7) & 1 == 1, path.next().unwrap());
        assert_eq!((lhs >> 6) & 1 == 1, path.next().unwrap());
        assert_eq!((lhs >> 5) & 1 == 1, path.next().unwrap());
        assert_eq!((lhs >> 4) & 1 == 1, path.next().unwrap());
        assert_eq!((lhs >> 3) & 1 == 1, path.next().unwrap());
        assert_eq!((lhs >> 2) & 1 == 1, path.next().unwrap());
        assert_eq!((lhs >> 1) & 1 == 1, path.next().unwrap());
        assert_eq!((lhs >> 0) & 1 == 1, path.next().unwrap());

        let rhs = hash.next_back().unwrap();
        assert_eq!((rhs >> 0) & 1 == 1, path.next_back().unwrap());
        assert_eq!((rhs >> 1) & 1 == 1, path.next_back().unwrap());
        assert_eq!((rhs >> 2) & 1 == 1, path.next_back().unwrap());
        assert_eq!((rhs >> 3) & 1 == 1, path.next_back().unwrap());
        assert_eq!((rhs >> 4) & 1 == 1, path.next_back().unwrap());
        assert_eq!((rhs >> 5) & 1 == 1, path.next_back().unwrap());
        assert_eq!((rhs >> 6) & 1 == 1, path.next_back().unwrap());
        assert_eq!((rhs >> 7) & 1 == 1, path.next_back().unwrap());
    }

    assert!(hash.next().is_none());
    assert!(path.next().is_none());
}

#[test]
fn path_forward_emits_every_bit_of_the_digest() {
    // sha256("foo") = 2c26b46b...e7ae
    let digest = sha256(b"foo");
    assert_eq!(digest[0], 0x2c);
    assert_eq!(digest[31], 0xae);
    let mut path = Path::from(b"foo");
    assert_eq!(path.len(), 256);
    for i in 0..256usize {
        let expected = (digest[i / 8] >> (7 - i % 8)) & 1 == 1;
        assert_eq!(path.len(), 256 - i);
        assert_eq!(path.next(), Some(expected), "bit {}", i);
    }
    assert_eq!(path.len(), 0);
    assert_eq!(path.next(), None);
    assert_eq!(path.next(), None);
    assert_eq!(path.next_back(), None);
    assert_eq!(path.len(), 0);
}

#[test]
fn path_first_byte_comes_highest_bit_first() {
    // 0x2c = 0010 1100
    let mut path = Path::from(b"foo");
    let expected = [false, false, true, false, true, true, false, false];
    for bit in expected {
        assert_eq!(path.next(), Some(bit));
    }
}

#[test]
fn path_backward_emits_from_the_last_bit() {
    let digest = sha256(b"foo");
    let mut path = Path::from(b"foo");
    // 0xae = 1010 1110, from the lowest bit: 0 1 1 1 0 1 0 1
    let expected = [false, true, true, true, false, true, false, true];
    for bit in expected {
        assert_eq!(path.next_back(), Some(bit));
    }
    for j in 8..256usize {
        let at = 256 - 1 - j;
        let expected = (digest[at / 8] >> (7 - at % 8)) & 1 == 1;
        assert_eq!(path.len(), 256 - j);
        assert_eq!(path.next_back(), Some(expected), "index {}", j);
    }
    assert_eq!(path.next_back(), None);
    assert_eq!(path.next(), None);
}

#[test]
fn path_ends_meet_without_overlap() {
    let digest = sha256(b"bar");
    let mut path = Path::from(b"bar");
    let mut seen = vec![None; 256];
    let mut front = 0usize;
    let mut back = 256usize;
    let mut turn = 0usize;
    while path.len() > 0 {
        let before = path.len();
        if turn % 3 == 0 {
            back -= 1;
            seen[back] = path.next_back();
        } else {
            seen[front] = path.next();
            front += 1;
        }
        assert_eq!(path.len(), before - 1);
        turn += 1;
    }
    assert_eq!(front, back);
    assert_eq!(turn, 256);
    for i in 0..256usize {
        assert_eq!(seen[i], Some((digest[i / 8] >> (7 - i % 8)) & 1 == 1));
    }
    assert_eq!(path.next(), None);
    assert_eq!(path.next_back(), None);
}

#[test]
fn path_of_the_empty_key() {
    // sha256("") = e3b0c442...
    let mut path = Path::from(b"");
    let expected = [true, true, true, false, false, false, true, true];
    for bit in expected {
        assert_eq!(path.next(), Some(bit));
    }
    assert_eq!(path.len(), 248);
}

#[test]
fn leaf_hash_is_domain_separated() {
    let path = Path::from(b"foo");
    let value = b"some value".to_vec();
    let mut data = vec![0xffu8];
    data.extend_from_slice(&sha256(b"foo"));
    data.extend_from_slice(&value);
    let hash = path.hash(&value);
    assert_eq!(hash.algorithm, warg::hash::HashAlgorithm::SHA256);
    assert_eq!(hash.bytes, sha256(&data));
    // Not the digest of the value alone, nor of key digest and value alone.
    assert_ne!(hash.bytes, sha256(&value));
    let mut plain = sha256(b"foo");
    plain.extend_from_slice(&value);
    assert_ne!(hash.bytes, sha256(&plain));
}

#[test]
fn leaf_hash_of_the_empty_value() {
    let path = Path::from(b"foo");
    let mut data = vec![0xffu8];
    data.extend_from_slice(&sha256(b"foo"));
    assert_eq!(path.hash(b"").bytes, sha256(&data));
}

#[test]
fn hash_does_not_depend_on_the_bits_taken() {
    let mut path = Path::from(b"foo");
    let before = path.hash(b"v");
    path.next();
    path.next_back();
    assert_eq!(path.hash(b"v"), before);
}

#[test]
fn link_of_a_leaf_has_the_leaf_hash() {
    let path = Path::from(b"key");
    let link = path.link(Node::Leaf(Leaf("key", b"value".to_vec())));
    assert_eq!(link.hash, path.hash(b"value"));
    match link.node {
        Node::Leaf(leaf) => {
            assert_eq!(leaf.0, "key");
            assert_eq!(leaf.1, b"value".to_vec());
        }
        Node::Fork(_) => panic!("a leaf was linked"),
    }
}

#[test]
fn link_of_a_fork_has_the_forks_own_hash() {
    let path = Path::from(b"key");
    let own = warg::hash::HashAlgorithm::SHA256.digest(b"children");
    let link = path.link(Node::<&str>::Fork(Fork { hash: own.clone() }));
    assert_eq!(link.hash, own);
    assert_ne!(link.hash, path.hash(b"children"));
    match link.node {
        Node::Fork(fork) => assert_eq!(fork.hash, own),
        Node::Leaf(_) => panic!("a fork was linked"),
    }
}

#[test]
fn leaf_data_starts_with_the_separating_byte() {
    assert_eq!(leaf_data(&[1, 2], &[3]), vec![0xff, 1, 2, 3]);
    assert_eq!(leaf_data(&[], &[]), vec![0xff]);
    assert_eq!(leaf_data(&[], &[9, 8]), vec![0xff, 9, 8]);
}

#[test]
fn path_of_a_given_digest() {
    let mut bytes = vec![0u8; 32];
    bytes[0] = 0b1000_0001;
    bytes[31] = 0b0100_0010;
    let digest = warg::hash::Hash { algorithm: warg::hash::HashAlgorithm::SHA256, bytes };
    let mut path = Path::of_digest(digest.clone());
    assert_eq!(path.len(), 256);
    assert_eq!(path.next(), Some(true));
    assert_eq!(path.next(), Some(false));
    assert_eq!(path.next_back(), Some(false));
    assert_eq!(path.next_back(), Some(true));
    assert_eq!(path.len(), 252);
    let mut data = vec![0xffu8];
    data.extend_from_slice(&digest.bytes);
    data.extend_from_slice(b"v");
    assert_eq!(path.hash(b"v").bytes, sha256(&data));
}
