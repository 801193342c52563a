use stark_vm::error::ExecError;
use stark_vm::field::MODULUS;
use stark_vm::processor::{execute, execute_with, DEFAULT_EXTENSION_FACTOR};
use stark_vm::trace::padded_length;
use stark_vm::vm::{push_word, ADD, DROP, DUP, MUL, NOOP, SUB, SWAP};

#[test]
fn push_seven_outputs_seven() {
    let e = execute(&[push_word(7)], &[], 1).unwrap();
    assert_eq!(e.outputs, vec![7]);
    assert_eq!(e.proof.outputs, vec![7]);
    assert_eq!(e.proof.program_hash, e.program_hash);
}

#[test]
fn program_hash_ignores_inputs() {
    let a = execute(&[push_word(7)], &[], 1).unwrap();
    let b = execute(&[push_word(7)], &[5], 1).unwrap();
    let c = execute(&[push_word(7)], &[1, 2, 3], 2).unwrap();
    assert_eq!(a.program_hash, b.program_hash);
    assert_eq!(a.program_hash, c.program_hash);
    assert_eq!(b.outputs, vec![7]);
    assert_eq!(c.outputs, vec![7, 1]);
    assert_ne!(a.program_hash, [0, 0, 0, 0]);
}

#[test]
fn program_hash_depends_on_program() {
    let a = execute(&[push_word(7)], &[], 1).unwrap();
    let b = execute(&[push_word(8)], &[], 1).unwrap();
    assert_ne!(a.program_hash, b.program_hash);
}

#[test]
fn execution_is_deterministic() {
    let p = [push_word(3), push_word(4), ADD, DUP, MUL];
    let a = execute(&p, &[9], 2).unwrap();
    let b = execute(&p, &[9], 2).unwrap();
    assert_eq!(a, b);
    assert_eq!(a.outputs, vec![49, 9]);
}

#[test]
fn arithmetic_instructions() {
    assert_eq!(execute(&[push_word(3), push_word(4), ADD], &[], 1).unwrap().outputs, vec![7]);
    assert_eq!(execute(&[push_word(3), push_word(4), MUL], &[], 1).unwrap().outputs, vec![12]);
    assert_eq!(execute(&[push_word(10), push_word(4), SUB], &[], 1).unwrap().outputs, vec![6]);
    assert_eq!(execute(&[push_word(4), push_word(10), SUB], &[], 1).unwrap().outputs, vec![MODULUS - 6]);
    assert_eq!(execute(&[push_word(5), DUP, MUL], &[], 1).unwrap().outputs, vec![25]);
    assert_eq!(execute(&[push_word(1), push_word(2), DROP], &[], 1).unwrap().outputs, vec![1]);
    assert_eq!(execute(&[push_word(1), push_word(2), SWAP], &[], 2).unwrap().outputs, vec![1, 2]);
}

#[test]
fn inputs_are_loaded_top_first() {
    assert_eq!(execute(&[ADD], &[2, 3], 1).unwrap().outputs, vec![5]);
    assert_eq!(execute(&[SUB], &[2, 3], 1).unwrap().outputs, vec![1]);
    assert_eq!(execute(&[NOOP], &[4, 5, 6], 3).unwrap().outputs, vec![4, 5, 6]);
}

#[test]
fn zero_outputs_is_allowed() {
    let e = execute(&[push_word(7)], &[], 0).unwrap();
    assert!(e.outputs.is_empty());
}

#[test]
fn padding_lengths() {
    assert_eq!(padded_length(1), 2);
    assert_eq!(padded_length(2), 4);
    assert_eq!(padded_length(3), 4);
    assert_eq!(padded_length(4), 8);
    assert_eq!(padded_length(5), 8);
    assert_eq!(padded_length(8), 16);
    assert_eq!(padded_length(9), 16);
    assert_eq!(padded_length(0), 1);
}

#[test]
fn padding_law_on_many_lengths() {
    for n in 1usize..200 {
        let p = padded_length(n);
        assert!(p.is_power_of_two());
        assert!(p >= n);
        if n.is_power_of_two() {
            assert!(p > n);
        } else {
            assert!(p < 2 * n);
        }
    }
}

#[test]
fn error_too_many_inputs() {
    let inputs = [1u64; 9];
    assert_eq!(execute(&[NOOP], &inputs, 0), Err(ExecError::TooManyInputs));
}

#[test]
fn error_input_not_in_field() {
    assert_eq!(execute(&[NOOP], &[MODULUS], 0), Err(ExecError::InputNotInField));
}

#[test]
fn error_stack_underflow() {
    assert_eq!(execute(&[ADD], &[], 0), Err(ExecError::StackFault { step: 0 }));
    assert_eq!(execute(&[push_word(1), DROP, DROP], &[], 0), Err(ExecError::StackFault { step: 2 }));
}

#[test]
fn error_stack_overflow() {
    let p = [push_word(1); 9];
    assert_eq!(execute(&p, &[], 0), Err(ExecError::StackFault { step: 8 }));
}

#[test]
fn error_unknown_opcode() {
    assert_eq!(execute(&[99], &[1, 2], 0), Err(ExecError::StackFault { step: 0 }));
}

#[test]
fn error_too_many_outputs() {
    assert_eq!(execute(&[push_word(7)], &[], 2), Err(ExecError::TooManyOutputs));
}

#[test]
fn error_bad_extension_factor() {
    assert_eq!(execute_with(&[push_word(7)], &[], 1, 3), Err(ExecError::BadExtensionFactor));
    assert_eq!(execute_with(&[push_word(7)], &[], 1, 2), Err(ExecError::BadExtensionFactor));
    assert_eq!(execute_with(&[push_word(7)], &[], 1, 128), Err(ExecError::BadExtensionFactor));
    assert_eq!(execute_with(&[push_word(7)], &[], 1, 4).unwrap().outputs, vec![7]);
}

#[test]
fn proof_artifact_shape() {
    let e = execute(&[push_word(7)], &[], 1).unwrap();
    // two rows extended by the default factor give 64 points, folded once
    assert_eq!(DEFAULT_EXTENSION_FACTOR, 32);
    assert_eq!(e.proof.layer_roots.len(), 1);
    assert_eq!(e.proof.remainder.len(), 32);
    assert_eq!(e.proof.queries.len(), 4);
    for q in &e.proof.queries {
        assert_eq!(q.trace.values.len(), 13);
        assert_eq!(q.trace.path.len(), 6);
        assert!(q.trace.index < 64);
        assert_eq!(q.layers.len(), 2);
        assert_eq!(q.layers[1].index, q.layers[0].index + 32);
    }
}

#[test]
fn different_extension_factors_differ_in_proof_only() {
    let a = execute_with(&[push_word(7)], &[], 1, 4).unwrap();
    let b = execute_with(&[push_word(7)], &[], 1, 8).unwrap();
    assert_eq!(a.outputs, b.outputs);
    assert_eq!(a.program_hash, b.program_hash);
    assert_ne!(a.proof, b.proof);
}
