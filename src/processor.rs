//! The execution orchestrator: pads the program, builds its trace, reads the
//! outputs and the program hash from the last row, and proves the trace.
use vstd::prelude::*;
use crate::error::ExecError;
use crate::vm::{row_wf, step_s, depth_of, acc_of, opcode_of, DEPTH_COL, NUM_COLS, STACK_WIDTH, NOOP};
use crate::trace::{
    TraceTable, MAX_LEN, inputs_ok, init_row_s, pad_program, pad_program_s, rows_s, run_s,
    table_error_s, table_ok_s, lemma_fault_persists, lemma_table_facts,
};
use crate::constraints::{
    constraints_hold_s, lemma_boundary_consistency, lemma_run_wf, lemma_trace_consistency,
};
use crate::prover::{ProofArtifact, ProofView, proof_s, prove};
use crate::poly::elems;

verus! {

/// The extension factor used where none is given.
pub const DEFAULT_EXTENSION_FACTOR: usize = 32;

/// The result of one execution.
#[derive(Clone, PartialEq, Eq, Debug)]
pub struct Execution {
    /// The first four lanes of the instruction accumulator at the last step.
    pub program_hash: [u64; 4],
    /// The top stack slots at the last step.
    pub outputs: Vec<u64>,
    pub proof: ProofArtifact,
}

pub ghost struct ExecutionView {
    pub program_hash: Seq<u64>,
    pub outputs: Seq<u64>,
    pub proof: ProofView,
}

impl Execution {
    pub open spec fn view(&self) -> ExecutionView {
        ExecutionView { program_hash: self.program_hash@, outputs: self.outputs@, proof: self.proof@ }
    }
}

pub open spec fn result_view(r: Result<Execution, ExecError>) -> Result<ExecutionView, ExecError> {
    match r {
        Ok(e) => Ok(e@),
        Err(e) => Err(e),
    }
}

/// The last row of the trace of `program`, padded, on `inputs`.
pub open spec fn last_row_s(program: Seq<u64>, inputs: Seq<u64>) -> Seq<u64> {
    rows_s(pad_program_s(program), inputs).last()
}

/// What executing `program` on `inputs`, reading `k` outputs, with
/// extension factor `f`, yields: `r` is that result.
pub open spec fn executes_s(
    program: Seq<u64>,
    inputs: Seq<u64>,
    k: nat,
    f: nat,
    r: Result<ExecutionView, ExecError>,
) -> bool {
    let padded = pad_program_s(program);
    let last = last_row_s(program, inputs);
    match r {
        Ok(e) => {
            &&& program.len() <= MAX_LEN
            &&& table_ok_s(padded, inputs, f)
            &&& k <= depth_of(last)
            &&& e.outputs == last.take(k as int)
            &&& e.program_hash == last.subrange(9, 13)
            &&& e.proof == proof_s(rows_s(padded, inputs), padded, f, inputs, last.take(k as int))
        },
        Err(e) => if program.len() > MAX_LEN {
            e == ExecError::BadProgramLength
        } else if !table_ok_s(padded, inputs, f) {
            table_error_s(padded, inputs, f, e)
        } else {
            k > depth_of(last) && e == ExecError::TooManyOutputs
        },
    }
}

/// Every reachable row has a stack depth within the stack's width.
pub proof fn lemma_run_depth(program: Seq<u64>, inputs: Seq<u64>, i: nat)
    requires
        inputs_ok(inputs),
        run_s(program, inputs, i) is Some,
    ensures
        depth_of(run_s(program, inputs, i).unwrap()) <= STACK_WIDTH,
    decreases i,
{
    if i > 0 {
        lemma_run_depth(program, inputs, (i - 1) as nat);
    }
}

/// The trace of an execution meets every constraint, with the outputs read
/// from its last row.
pub proof fn lemma_built_trace_holds(program: Seq<u64>, inputs: Seq<u64>, k: nat)
    requires
        inputs_ok(inputs),
        program.len() >= 1,
        run_s(program, inputs, (program.len() - 1) as nat) is Some,
        k <= NUM_COLS,
    ensures
        constraints_hold_s(rows_s(program, inputs), program, inputs, rows_s(program, inputs).last().take(k as int)),
{
    let rows = rows_s(program, inputs);
    let n = program.len();
    assert forall|i: int| 0 <= i < n implies #[trigger] run_s(program, inputs, i as nat) is Some by {
        if run_s(program, inputs, i as nat) is None {
            lemma_fault_persists(program, inputs, i as nat, (n - 1) as nat);
        }
    }
    assert forall|i: int| 0 <= i < rows.len() - 1 implies crate::constraints::all_zero(
        #[trigger] crate::constraints::transition_residuals_s(rows[i], rows[i + 1], program[i]),
    ) by {
        lemma_trace_consistency(program, inputs, i as nat);
        assert(rows[i] == run_s(program, inputs, i as nat).unwrap());
        assert(rows[i + 1] == run_s(program, inputs, (i + 1) as nat).unwrap());
    }
    lemma_boundary_consistency(program, inputs, (n - 1) as nat, k);
}

/// Executes `program` on `inputs` and proves it, with the default extension factor.
pub fn execute(program: &[u64], inputs: &[u64], num_outputs: usize) -> (r: Result<Execution, ExecError>)
    ensures
        executes_s(program@, inputs@, num_outputs as nat, DEFAULT_EXTENSION_FACTOR as nat, result_view(r)),
{
    execute_with(program, inputs, num_outputs, DEFAULT_EXTENSION_FACTOR)
}

/// Executes `program` on `inputs` and proves it: pads the program, builds
/// the trace, reads the top `num_outputs` stack slots and the program hash
/// from the last row, and proves the trace with those outputs.
pub fn execute_with(program: &[u64], inputs: &[u64], num_outputs: usize, extension_factor: usize) -> (r: Result<
    Execution,
    ExecError,
>)
    ensures
        executes_s(program@, inputs@, num_outputs as nat, extension_factor as nat, result_view(r)),
{
    if program.len() > MAX_LEN {
        return Err(ExecError::BadProgramLength);
    }
    let padded = pad_program(program);
    let t = match TraceTable::new(padded.as_slice(), inputs, extension_factor) {
        Ok(t) => t,
        Err(e) => {
            return Err(e);
        },
    };
    proof {
        lemma_table_facts(&t);
    }
    let n = t.len();
    let last = t.row(n - 1);
    let ghost padded_s = pad_program_s(program@);
    assert(t.rows().last() == last_row_s(program@, inputs@));
    proof {
        lemma_run_depth(padded_s, inputs@, (n - 1) as nat);
        assert(run_s(padded_s, inputs@, (n - 1) as nat).unwrap() == t.rows()[n - 1]);
    }
    let depth = last[DEPTH_COL];
    if num_outputs as u64 > depth {
        return Err(ExecError::TooManyOutputs);
    }
    let mut outputs: Vec<u64> = Vec::new();
    let mut j: usize = 0;
    while j < num_outputs
        invariant
            j <= num_outputs,
            num_outputs <= STACK_WIDTH,
            row_wf(last@),
            outputs@ == last@.take(j as int),
        decreases num_outputs - j,
    {
        outputs.push(last[j]);
        j = j + 1;
        assert(outputs@ =~= last@.take(j as int));
    }
    let program_hash = [last[9], last[10], last[11], last[12]];
    assert(program_hash@ =~= last@.subrange(9, 13));
    proof {
        lemma_built_trace_holds(padded_s, inputs@, num_outputs as nat);
    }
    let proof = match prove(&t, inputs, &outputs) {
        Ok(p) => p,
        Err(e) => {
            return Err(e);
        },
    };
    Ok(Execution { program_hash, outputs, proof })
}

/// Execution is deterministic: the same program, inputs, output count and
/// extension factor admit exactly one result, bit for bit.
pub proof fn lemma_execute_deterministic(
    program: Seq<u64>,
    inputs: Seq<u64>,
    k: nat,
    f: nat,
    r1: Result<ExecutionView, ExecError>,
    r2: Result<ExecutionView, ExecError>,
)
    requires
        executes_s(program, inputs, k, f, r1),
        executes_s(program, inputs, k, f, r2),
    ensures
        r1 == r2,
{
    let padded = pad_program_s(program);
    match (r1, r2) {
        (Ok(e1), Ok(e2)) => {
        },
        (Err(e1), Err(e2)) => {
            if program.len() <= MAX_LEN && !table_ok_s(padded, inputs, f) {
                if let (ExecError::StackFault { step: s1 }, ExecError::StackFault { step: s2 }) = (e1, e2) {
                    if s1 < s2 {
                        lemma_fault_persists(padded, inputs, s1 as nat + 1, s2 as nat);
                    } else if s2 < s1 {
                        lemma_fault_persists(padded, inputs, s2 as nat + 1, s1 as nat);
                    }
                }
            }
        },
        _ => {
        },
    }
}

} // verus!

verus! {

/// A step changes the accumulator by its instruction word alone.
proof fn lemma_step_acc(row: Seq<u64>, w: u64)
    requires
        row_wf(row),
        step_s(row, w) is Some,
    ensures
        acc_of(step_s(row, w).unwrap()) == (if opcode_of(w) == NOOP {
            acc_of(row)
        } else {
            crate::vm::acc_next_s(row, w)
        }),
{
}

proof fn lemma_acc_lanes(row: Seq<u64>)
    requires
        row.len() == NUM_COLS,
    ensures
        row.subrange(9, 13) == seq![acc_of(row).a, acc_of(row).b, acc_of(row).c, acc_of(row).d],
{
    assert(row.subrange(9, 13) =~= seq![acc_of(row).a, acc_of(row).b, acc_of(row).c, acc_of(row).d]);
}

/// The instruction accumulator depends on the program alone: on any two
/// input tapes on which the program runs to step `i`, it is the same there.
pub proof fn lemma_hash_independent_of_inputs(program: Seq<u64>, in1: Seq<u64>, in2: Seq<u64>, i: nat)
    requires
        inputs_ok(in1),
        inputs_ok(in2),
        run_s(program, in1, i) is Some,
        run_s(program, in2, i) is Some,
    ensures
        run_s(program, in1, i).unwrap().subrange(9, 13) == run_s(program, in2, i).unwrap().subrange(9, 13),
    decreases i,
{
    lemma_run_wf(program, in1, i);
    lemma_run_wf(program, in2, i);
    let s1 = run_s(program, in1, i).unwrap();
    let s2 = run_s(program, in2, i).unwrap();
    lemma_acc_lanes(s1);
    lemma_acc_lanes(s2);
    if i == 0 {
    } else {
        let j = (i - 1) as nat;
        lemma_hash_independent_of_inputs(program, in1, in2, j);
        lemma_run_wf(program, in1, j);
        lemma_run_wf(program, in2, j);
        let r1 = run_s(program, in1, j).unwrap();
        let r2 = run_s(program, in2, j).unwrap();
        lemma_acc_lanes(r1);
        lemma_acc_lanes(r2);
        assert(acc_of(r1) == acc_of(r2));
        lemma_step_acc(r1, program[j as int]);
        lemma_step_acc(r2, program[j as int]);
    }
}

} // verus!
