use stark_vm::constraints::{first_residuals, last_residuals, transition_residuals};
use stark_vm::error::ExecError;
use stark_vm::prover::{check_constraints, is_zero, prove};
use stark_vm::trace::{pad_program, TraceTable};
use stark_vm::vm::{push_word, step, NOOP, NUM_COLS};

fn table() -> (Vec<u64>, TraceTable) {
    let padded = pad_program(&[push_word(7), NOOP]);
    let t = TraceTable::new(&padded, &[], 32).unwrap();
    (padded, t)
}

#[test]
fn trace_has_padded_length() {
    let (padded, t) = table();
    assert_eq!(padded, vec![push_word(7), NOOP, NOOP, NOOP]);
    assert_eq!(t.len(), 4);
    assert!(t.get_state(3).is_some());
    assert!(t.get_state(4).is_none());
    assert_eq!(t.lde_len(), 128);
}

#[test]
fn padding_steps_leave_state_unchanged() {
    let (_, t) = table();
    let s1 = t.get_state(1).unwrap();
    assert_eq!(s1.get_stack()[0], 7);
    assert_eq!(s1.get_depth(), 1);
    for i in 2..4 {
        assert_eq!(t.get_state(i).unwrap(), s1);
    }
    let s0 = t.get_state(0).unwrap();
    assert_eq!(s0.get_depth(), 0);
    assert_eq!(s0.get_op_acc(), [0, 0, 0, 0]);
}

#[test]
fn transitions_have_zero_residuals() {
    let (padded, t) = table();
    for i in 0..t.len() - 1 {
        let r = transition_residuals(t.row(i), t.row(i + 1), padded[i]);
        assert_eq!(r.len(), NUM_COLS);
        assert!(is_zero(&r));
    }
}

#[test]
fn boundaries_have_zero_residuals() {
    let (_, t) = table();
    assert!(is_zero(&first_residuals(t.row(0), &[])));
    assert!(is_zero(&last_residuals(t.row(3), &vec![7])));
    assert!(!is_zero(&last_residuals(t.row(3), &vec![8])));
    assert!(!is_zero(&first_residuals(t.row(0), &[1])));
}

#[test]
fn extension_reproduces_columns() {
    let (_, t) = table();
    let f = t.extension_factor();
    for c in 0..NUM_COLS {
        let col = t.get_lde_column(c).unwrap();
        assert_eq!(col.len(), t.len() * f);
        for i in 0..t.len() {
            assert_eq!(col[i * f], t.row(i)[c]);
        }
    }
    assert!(t.get_lde_column(NUM_COLS).is_none());
}

#[test]
fn changed_value_is_detected() {
    let (padded, t) = table();
    for r in 0..t.len() {
        for c in 0..NUM_COLS {
            let mut row = t.row(r).clone();
            row[c] = if row[c] == 5 { 6 } else { 5 };
            let detected = if r == 0 {
                !is_zero(&first_residuals(&row, &[]))
            } else {
                !is_zero(&transition_residuals(t.row(r - 1), &row, padded[r - 1]))
            };
            assert!(detected);
        }
    }
}

#[test]
fn faulting_step_gives_unit_residuals() {
    let (_, t) = table();
    let r = transition_residuals(t.row(0), t.row(1), stark_vm::vm::DUP);
    assert_eq!(r, vec![1; NUM_COLS]);
    assert!(step(t.row(0), stark_vm::vm::DUP).is_none());
}

#[test]
fn prover_rejects_wrong_outputs() {
    let (_, t) = table();
    assert!(check_constraints(&t, &[], &vec![7]));
    assert!(!check_constraints(&t, &[], &vec![8]));
    assert_eq!(prove(&t, &[], &vec![8]), Err(ExecError::ConstraintViolation));
    assert!(prove(&t, &[], &vec![7]).is_ok());
}

#[test]
fn table_rejects_unpadded_program() {
    let r = TraceTable::new(&[push_word(7), NOOP, NOOP], &[], 32);
    assert_eq!(r.err(), Some(ExecError::BadProgramLength));
    let r = TraceTable::new(&[], &[], 32);
    assert_eq!(r.err(), Some(ExecError::BadProgramLength));
}

