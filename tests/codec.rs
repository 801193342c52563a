use stark_vm::codec::{proof_words, to_bytes};
use stark_vm::processor::execute;
use stark_vm::vm::push_word;

#[test]
fn bytes_are_little_endian_words() {
    let e = execute(&[push_word(7)], &[], 1).unwrap();
    let words = proof_words(&e.proof);
    let bytes = to_bytes(&e.proof);
    assert_eq!(bytes.len(), 8 * words.len());
    for (i, w) in words.iter().enumerate() {
        assert_eq!(&bytes[8 * i..8 * i + 8], &w.to_le_bytes()[..]);
    }
    assert_eq!(&bytes[0..8], &e.proof.trace_root.a.to_le_bytes()[..]);
}

#[test]
fn word_layout_of_single_push() {
    let e = execute(&[push_word(7)], &[], 1).unwrap();
    let w = proof_words(&e.proof);
    let p = &e.proof;
    assert_eq!(&w[0..4], &[p.trace_root.a, p.trace_root.b, p.trace_root.c, p.trace_root.d][..]);
    assert_eq!(w[4], 1);
    assert_eq!(&w[5..9], &[p.layer_roots[0].a, p.layer_roots[0].b, p.layer_roots[0].c, p.layer_roots[0].d][..]);
    assert_eq!(w[9], 32);
    assert_eq!(&w[10..42], &p.remainder[..]);
    assert_eq!(w[42], 4);
    assert_eq!(w[43], p.queries[0].trace.index as u64);
    assert_eq!(w[44], 13);
    // each query: 40 words of trace opening, a count, two layer openings of 28
    assert_eq!(w.len(), 4 + 1 + 4 + 33 + 1 + 4 * 97 + 2 + 4);
    let n = w.len();
    assert_eq!(&w[n - 6..n - 4], &[1, 7][..]);
    assert_eq!(&w[n - 4..], &e.program_hash[..]);
}

#[test]
fn bytes_are_deterministic() {
    let a = execute(&[push_word(7)], &[], 1).unwrap();
    let b = execute(&[push_word(7)], &[], 1).unwrap();
    assert_eq!(to_bytes(&a.proof), to_bytes(&b.proof));
}
