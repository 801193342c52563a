use stark_vm::air::{constraint_values, ins_row, transition_poly, NUM_INS};
use stark_vm::prover::is_zero;
use stark_vm::trace::{pad_program, TraceTable};
use stark_vm::vm::{push_word, ADD, DROP, DUP, MUL, NOOP, NUM_COLS, SUB, SWAP};

fn program() -> Vec<u64> {
    pad_program(&[push_word(3), push_word(4), MUL, DUP, ADD, push_word(5), SWAP, SUB, push_word(2), DROP, NOOP])
}

#[test]
fn instruction_columns_decode_word() {
    let r = ins_row(push_word(9));
    assert_eq!(r.len(), NUM_INS);
    assert_eq!(r, vec![0, 1, 0, 0, 0, 0, 0, 0, 9]);
    assert_eq!(ins_row(MUL), vec![0, 0, 0, 0, 0, 0, 0, 1, 0]);
    assert_eq!(ins_row(NOOP), vec![1, 0, 0, 0, 0, 0, 0, 0, 0]);
}

#[test]
fn polynomial_relations_vanish_on_every_step() {
    let p = program();
    let t = TraceTable::new(&p, &[6], 4).unwrap();
    for i in 0..t.len() - 1 {
        let r = transition_poly(t.row(i), t.row(i + 1), &ins_row(p[i]));
        assert_eq!(r.len(), NUM_COLS);
        assert!(is_zero(&r), "step {}", i);
    }
}

#[test]
fn polynomial_relations_detect_changed_value() {
    let p = program();
    let t = TraceTable::new(&p, &[6], 4).unwrap();
    for i in 0..t.len() - 1 {
        for c in 0..NUM_COLS {
            let mut next = t.row(i + 1).clone();
            next[c] = if next[c] == 5 { 6 } else { 5 };
            assert!(!is_zero(&transition_poly(t.row(i), &next, &ins_row(p[i]))));
        }
    }
}

#[test]
fn constraint_values_at_first_row() {
    let p = program();
    let t = TraceTable::new(&p, &[6], 4).unwrap();
    let v = constraint_values(t.row(0), t.row(1), &ins_row(p[0]), &[6], &vec![]);
    assert_eq!(v.len(), 2 * NUM_COLS);
    assert!(is_zero(&v));
    let w = constraint_values(t.row(0), t.row(1), &ins_row(p[0]), &[7], &vec![]);
    assert!(!is_zero(&w));
}

#[test]
fn proof_depends_on_inputs_through_boundary() {
    let a = stark_vm::processor::execute(&[ADD], &[2, 3], 1).unwrap();
    let b = stark_vm::processor::execute(&[ADD], &[3, 2], 1).unwrap();
    assert_eq!(a.outputs, b.outputs);
    assert_eq!(a.program_hash, b.program_hash);
    assert_ne!(a.proof, b.proof);
}
