//! The constraint evaluator: residuals of the transition relation between two
//! adjacent rows, and of the boundary relations at the first and last rows.
//! A residual vector is all zero exactly where the relation holds.
use vstd::prelude::*;
use crate::field::{fsub, is_elem, sub_s, modulus};
use crate::vm::{row_wf, step, step_s, NUM_COLS};
use crate::trace::{init_row, init_row_s, inputs_ok, run_s};

verus! {

pub open spec fn all_zero(s: Seq<u64>) -> bool {
    forall|j: int| 0 <= j < s.len() ==> #[trigger] s[j] == 0
}

/// The register-wise difference of two rows of equal length.
pub open spec fn diff_s(a: Seq<u64>, b: Seq<u64>) -> Seq<u64> {
    Seq::new(a.len(), |j: int| sub_s(a[j] as int, b[j] as int) as u64)
}

/// Transition residuals: each register of `next` minus what executing `w`
/// on `cur` gives; every residual is one where `w` faults on `cur`.
pub open spec fn transition_residuals_s(cur: Seq<u64>, next: Seq<u64>, w: u64) -> Seq<u64> {
    match step_s(cur, w) {
        Some(e) => diff_s(next, e),
        None => Seq::new(NUM_COLS as nat, |j: int| 1u64),
    }
}

/// Residuals of the first row against the declared inputs.
pub open spec fn first_residuals_s(row: Seq<u64>, inputs: Seq<u64>) -> Seq<u64> {
    diff_s(row, init_row_s(inputs))
}

/// Residuals of the leading stack slots of the last row against the declared outputs.
pub open spec fn last_residuals_s(row: Seq<u64>, outputs: Seq<u64>) -> Seq<u64> {
    diff_s(outputs, row.take(outputs.len() as int))
}

/// Every constraint holds on `rows`: the first row against the inputs, every
/// adjacent pair against the instruction between them, and the last row
/// against the outputs.
pub open spec fn constraints_hold_s(
    rows: Seq<Seq<u64>>,
    program: Seq<u64>,
    inputs: Seq<u64>,
    outputs: Seq<u64>,
) -> bool {
    &&& rows.len() >= 1
    &&& all_zero(first_residuals_s(rows[0], inputs))
    &&& forall|i: int|
        0 <= i < rows.len() - 1 ==> all_zero(#[trigger] transition_residuals_s(rows[i], rows[i + 1], program[i]))
    &&& all_zero(last_residuals_s(rows.last(), outputs))
}

/// A difference of two field elements is zero exactly where they are equal.
pub proof fn lemma_sub_zero(a: int, b: int)
    requires
        is_elem(a),
        is_elem(b),
    ensures
        (sub_s(a, b) == 0) <==> (a == b),
{
    if a != b {
        let d = a - b;
        assert(-modulus() < d < modulus());
        if d > 0 {
            assert(d % modulus() == d) by {
                vstd::arithmetic::div_mod::lemma_small_mod(d as nat, modulus() as nat);
            }
        } else {
            assert(d % modulus() == d + modulus()) by {
                vstd::arithmetic::div_mod::lemma_mod_add_multiples_vanish(d, modulus());
                vstd::arithmetic::div_mod::lemma_small_mod((d + modulus()) as nat, modulus() as nat);
            }
        }
    }
}

/// The difference of two rows is all zero exactly where they are equal.
pub proof fn lemma_diff_zero(a: Seq<u64>, b: Seq<u64>)
    requires
        a.len() == b.len(),
        forall|j: int| 0 <= j < a.len() ==> is_elem(#[trigger] a[j] as int),
        forall|j: int| 0 <= j < b.len() ==> is_elem(#[trigger] b[j] as int),
    ensures
        all_zero(diff_s(a, b)) <==> a == b,
{
    if all_zero(diff_s(a, b)) {
        assert forall|j: int| 0 <= j < a.len() implies a[j] == b[j] by {
            assert(diff_s(a, b)[j] == 0);
            lemma_sub_zero(a[j] as int, b[j] as int);
        }
        assert(a =~= b);
    }
    if a == b {
        assert forall|j: int| 0 <= j < a.len() implies #[trigger] diff_s(a, b)[j] == 0 by {
            lemma_sub_zero(a[j] as int, b[j] as int);
        }
    }
}

/// The transition residuals vanish exactly where `next` is the step of `cur`.
pub proof fn lemma_transition_zero(cur: Seq<u64>, next: Seq<u64>, w: u64)
    requires
        row_wf(cur),
        row_wf(next),
    ensures
        all_zero(transition_residuals_s(cur, next, w)) <==> step_s(cur, w) == Some(next),
{
    match step_s(cur, w) {
        Some(e) => {
            crate::vm::lemma_step_wf(cur, w);
            lemma_diff_zero(next, e);
        },
        None => {
            assert(transition_residuals_s(cur, next, w)[0] == 1);
        },
    }
}

fn diff(a: &Vec<u64>, b: &Vec<u64>) -> (r: Vec<u64>)
    requires
        a@.len() <= b@.len(),
        forall|j: int| 0 <= j < a@.len() ==> is_elem(#[trigger] a@[j] as int),
        forall|j: int| 0 <= j < b@.len() ==> is_elem(#[trigger] b@[j] as int),
    ensures
        r@ == diff_s(a@, b@),
{
    let mut out: Vec<u64> = Vec::new();
    let mut j: usize = 0;
    while j < a.len()
        invariant
            j <= a@.len(),
            a@.len() <= b@.len(),
            out@.len() == j,
            forall|k: int| 0 <= k < a@.len() ==> is_elem(#[trigger] a@[k] as int),
            forall|k: int| 0 <= k < b@.len() ==> is_elem(#[trigger] b@[k] as int),
            forall|k: int| 0 <= k < j ==> #[trigger] out@[k] == diff_s(a@, b@)[k],
        decreases a@.len() - j,
    {
        out.push(fsub(a[j], b[j]));
        j = j + 1;
    }
    assert(out@ =~= diff_s(a@, b@));
    out
}

/// Evaluates the transition constraints on a pair of adjacent rows.
pub fn transition_residuals(cur: &Vec<u64>, next: &Vec<u64>, w: u64) -> (r: Vec<u64>)
    requires
        row_wf(cur@),
        row_wf(next@),
    ensures
        r@ == transition_residuals_s(cur@, next@, w),
        all_zero(r@) <==> step_s(cur@, w) == Some(next@),
{
    proof {
        lemma_transition_zero(cur@, next@, w);
    }
    match step(cur, w) {
        Some(e) => diff(next, &e),
        None => {
            let mut out: Vec<u64> = Vec::new();
            let mut j: usize = 0;
            while j < NUM_COLS
                invariant
                    j <= NUM_COLS,
                    out@.len() == j,
                    forall|k: int| 0 <= k < j ==> #[trigger] out@[k] == 1,
                decreases NUM_COLS - j,
            {
                out.push(1);
                j = j + 1;
            }
            assert(out@ =~= transition_residuals_s(cur@, next@, w));
            out
        },
    }
}

/// Evaluates the boundary constraints of the first row.
pub fn first_residuals(row: &Vec<u64>, inputs: &[u64]) -> (r: Vec<u64>)
    requires
        row_wf(row@),
        inputs_ok(inputs@),
    ensures
        r@ == first_residuals_s(row@, inputs@),
        all_zero(r@) <==> row@ == init_row_s(inputs@),
{
    let init = init_row(inputs);
    proof {
        lemma_diff_zero(row@, init@);
    }
    diff(row, &init)
}

/// Evaluates the boundary constraints of the last row.
pub fn last_residuals(row: &Vec<u64>, outputs: &Vec<u64>) -> (r: Vec<u64>)
    requires
        row_wf(row@),
        outputs@.len() <= NUM_COLS,
        forall|j: int| 0 <= j < outputs@.len() ==> is_elem(#[trigger] outputs@[j] as int),
    ensures
        r@ == last_residuals_s(row@, outputs@),
        all_zero(r@) <==> outputs@ == row@.take(outputs@.len() as int),
{
    proof {
        lemma_diff_zero(outputs@, row@.take(outputs@.len() as int));
    }
    let r = diff(outputs, row);
    assert(r@ =~= last_residuals_s(row@, outputs@));
    r
}

} // verus!

verus! {

/// Every row that execution reaches holds field elements only.
pub proof fn lemma_run_wf(program: Seq<u64>, inputs: Seq<u64>, i: nat)
    requires
        inputs_ok(inputs),
        run_s(program, inputs, i) is Some,
    ensures
        row_wf(run_s(program, inputs, i).unwrap()),
    decreases i,
{
    if i > 0 {
        lemma_run_wf(program, inputs, (i - 1) as nat);
        crate::vm::lemma_step_wf(run_s(program, inputs, (i - 1) as nat).unwrap(), program[i - 1]);
    }
}

/// Trace consistency: between any two adjacent rows that execution reaches,
/// every transition residual is zero.
pub proof fn lemma_trace_consistency(program: Seq<u64>, inputs: Seq<u64>, i: nat)
    requires
        inputs_ok(inputs),
        run_s(program, inputs, i + 1) is Some,
    ensures
        all_zero(
            transition_residuals_s(
                run_s(program, inputs, i).unwrap(),
                run_s(program, inputs, i + 1).unwrap(),
                program[i as int],
            ),
        ),
{
    lemma_run_wf(program, inputs, i);
    lemma_run_wf(program, inputs, i + 1);
    lemma_transition_zero(
        run_s(program, inputs, i).unwrap(),
        run_s(program, inputs, i + 1).unwrap(),
        program[i as int],
    );
}

/// Boundary consistency: the first row matches the declared inputs, and the
/// row at step `n` matches the outputs read from its first `k` stack slots.
pub proof fn lemma_boundary_consistency(program: Seq<u64>, inputs: Seq<u64>, n: nat, k: nat)
    requires
        inputs_ok(inputs),
        run_s(program, inputs, n) is Some,
        k <= NUM_COLS,
    ensures
        all_zero(first_residuals_s(run_s(program, inputs, 0).unwrap(), inputs)),
        all_zero(
            last_residuals_s(
                run_s(program, inputs, n).unwrap(),
                run_s(program, inputs, n).unwrap().take(k as int),
            ),
        ),
{
    lemma_run_wf(program, inputs, 0);
    lemma_run_wf(program, inputs, n);
    let first = run_s(program, inputs, 0).unwrap();
    let last = run_s(program, inputs, n).unwrap();
    lemma_diff_zero(first, init_row_s(inputs));
    lemma_diff_zero(last.take(k as int), last.take(k as int));
}

/// Changing any one register of any one row of a trace that meets every
/// constraint to another field element leaves some residual non-zero.
pub proof fn lemma_single_change_detected(
    rows: Seq<Seq<u64>>,
    program: Seq<u64>,
    inputs: Seq<u64>,
    outputs: Seq<u64>,
    r: int,
    c: int,
    v: u64,
)
    requires
        constraints_hold_s(rows, program, inputs, outputs),
        inputs_ok(inputs),
        forall|i: int| 0 <= i < rows.len() ==> row_wf(#[trigger] rows[i]),
        0 <= r < rows.len(),
        0 <= c < NUM_COLS,
        is_elem(v as int),
        v != rows[r][c],
    ensures
        !constraints_hold_s(rows.update(r, rows[r].update(c, v)), program, inputs, outputs),
{
    let changed = rows.update(r, rows[r].update(c, v));
    let row = rows[r].update(c, v);
    assert(row_wf(row));
    assert(row != rows[r]) by {
        assert(row[c] != rows[r][c]);
    }
    if r == 0 {
        assert(init_row_s(inputs).len() == NUM_COLS);
        lemma_diff_zero(rows[0], init_row_s(inputs));
        lemma_diff_zero(row, init_row_s(inputs));
        assert(!all_zero(first_residuals_s(changed[0], inputs)));
    } else {
        let i = r - 1;
        assert(all_zero(transition_residuals_s(rows[i], rows[i + 1], program[i])));
        assert(rows[i + 1] == rows[r]);
        lemma_transition_zero(rows[i], rows[r], program[i]);
        lemma_transition_zero(rows[i], row, program[i]);
        assert(changed[i] == rows[i]);
        assert(changed[i + 1] == row);
        assert(!all_zero(transition_residuals_s(changed[i], changed[i + 1], program[i])));
    }
}

} // verus!
