use stark_vm::hash::{absorb, absorb_all, merge, permute, Digest};
use stark_vm::merkle::{leaf, parent_layer, path, root};

fn d(x: u64) -> Digest {
    Digest { a: x, b: x + 1, c: x + 2, d: x + 3 }
}

#[test]
fn permutation_moves_state() {
    let z = Digest::zero();
    assert_ne!(permute(z), z);
    assert_eq!(permute(z), permute(Digest { a: 0, b: 0, c: 0, d: 0 }));
    assert_ne!(permute(d(1)), permute(d(2)));
}

#[test]
fn absorb_all_is_repeated_absorb() {
    let z = Digest::zero();
    let one = absorb(z, 5);
    let two = absorb(one, 9);
    assert_eq!(absorb_all(z, &vec![5, 9]), two);
    assert_eq!(absorb_all(z, &vec![]), z);
    assert_eq!(leaf(&vec![5, 9]), two);
    assert_ne!(absorb_all(z, &vec![9, 5]), two);
}

#[test]
fn merge_is_ordered() {
    assert_ne!(merge(d(1), d(5)), merge(d(5), d(1)));
}

#[test]
fn merkle_root_and_paths() {
    let leaves = vec![d(1), d(5), d(9), d(13)];
    let p = parent_layer(&leaves);
    assert_eq!(p, vec![merge(d(1), d(5)), merge(d(9), d(13))]);
    let r = root(&leaves);
    assert_eq!(r, merge(p[0], p[1]));
    assert_eq!(root(&vec![d(3)]), d(3));
    assert_eq!(root(&vec![]), Digest::zero());
    assert_eq!(path(&leaves, 0), vec![d(5), p[1]]);
    assert_eq!(path(&leaves, 3), vec![d(9), p[0]]);
    assert_eq!(path(&vec![d(3)], 0), vec![]);
}
