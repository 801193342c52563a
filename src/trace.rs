//! The execution trace: one register row per program step.
use vstd::prelude::*;
use crate::field::is_elem;
use crate::vm::{row_wf, step, step_s, NUM_COLS, DEPTH_COL, STACK_WIDTH, NOOP, MAX_CONSTRAINT_DEGREE};
use crate::error::ExecError;
use crate::field::{inv_s, pow_s, fpow, finv, MODULUS};
use crate::poly::{elems, eval_s, eval_all_s, extend, interpolate_s, powers, powers_s, root_of_unity, root_s};

verus! {

/// The largest program length that is accepted.
pub const MAX_LEN: usize = 0x1F_FFFF;

/// The largest trace length.
pub const MAX_TRACE_LEN: usize = 0x20_0000;

/// The smallest accepted extension factor: one more than the highest
/// constraint degree, so that the composition of the constraint relations,
/// of degree below that degree times the trace length, is determined by its
/// values on the extended domain.
pub const MIN_EXTENSION_FACTOR: usize = MAX_CONSTRAINT_DEGREE + 1;

/// The largest accepted extension factor.
pub const MAX_EXTENSION_FACTOR: usize = 64;

pub open spec fn is_pow2(n: nat) -> bool
    decreases n,
{
    if n == 1 {
        true
    } else if n >= 2 && n % 2 == 0 {
        is_pow2(n / 2)
    } else {
        false
    }
}

/// The trace length for a program of `n` instructions: the least power of two
/// at least `n`, doubled where `n` is itself a power of two, so that the last
/// step is always a padding no-op.
pub open spec fn padded_length_s(n: nat) -> nat {
    if is_pow2(n) {
        2 * n
    } else {
        least_pow2_at_least(n, 1)
    }
}

/// The least power of two that is at least `n`, searching from `p`.
pub open spec fn least_pow2_at_least(n: nat, p: nat) -> nat
    decreases 2 * n - p,
{
    if p >= n || p == 0 {
        p
    } else {
        least_pow2_at_least(n, 2 * p)
    }
}

proof fn lemma_double_pow2(p: nat)
    requires
        is_pow2(p),
    ensures
        is_pow2(2 * p),
{
    assert((2 * p) / 2 == p);
}

proof fn lemma_pow2_gap(p: nat, n: nat)
    requires
        is_pow2(p),
        is_pow2(n),
        p < n,
    ensures
        2 * p <= n,
    decreases p,
{
    if p >= 2 {
        lemma_pow2_gap(p / 2, n / 2);
    }
}

proof fn lemma_pow2_search(n: nat, p: nat)
    requires
        is_pow2(p),
        p < 2 * n,
    ensures
        is_pow2(least_pow2_at_least(n, p)),
        least_pow2_at_least(n, p) >= n,
        least_pow2_at_least(n, p) < 2 * n || (p >= n && least_pow2_at_least(n, p) == p),
    decreases 2 * n - p,
{
    if p >= n {
    } else {
        lemma_double_pow2(p);
        lemma_pow2_search(n, 2 * p);
    }
}

/// The trace length for a program of `n` instructions.
pub fn padded_length(n: usize) -> (r: usize)
    requires
        n <= MAX_LEN,
    ensures
        r == padded_length_s(n as nat),
        is_pow2(r as nat),
        r >= n,
        is_pow2(n as nat) ==> r == 2 * n,
        !is_pow2(n as nat) ==> r < 2 * n || n == 0,
{
    let mut p: usize = 1;
    proof {
        if n > 0 {
            lemma_pow2_search(n as nat, 1);
        }
    }
    while p < n
        invariant
            is_pow2(p as nat),
            1 <= p,
            p < 2 * n || n == 0,
            n <= MAX_LEN,
            least_pow2_at_least(n as nat, p as nat) == least_pow2_at_least(n as nat, 1),
        decreases 2 * n - p,
    {
        proof {
            lemma_double_pow2(p as nat);
        }
        p = p * 2;
    }
    proof {
        if n > 0 {
            lemma_pow2_search(n as nat, 1);
        }
        if is_pow2(n as nat) && p != n {
            lemma_pow2_gap(n as nat, p as nat);
        }
    }
    if p == n {
        2 * n
    } else {
        p
    }
}

/// The program padded with no-ops to its trace length.
pub open spec fn pad_program_s(program: Seq<u64>) -> Seq<u64> {
    Seq::new(
        padded_length_s(program.len()),
        |i: int| if i < program.len() { program[i] } else { NOOP },
    )
}

pub fn pad_program(program: &[u64]) -> (r: Vec<u64>)
    requires
        program@.len() <= MAX_LEN,
    ensures
        r@ == pad_program_s(program@),
{
    let n = padded_length(program.len());
    let mut out: Vec<u64> = Vec::new();
    let mut i: usize = 0;
    while i < n
        invariant
            n == padded_length_s(program@.len()),
            i <= n,
            out@.len() == i,
            forall|j: int| 0 <= j < i ==> #[trigger] out@[j] == pad_program_s(program@)[j],
        decreases n - i,
    {
        if i < program.len() {
            out.push(program[i]);
        } else {
            out.push(NOOP);
        }
        i = i + 1;
    }
    assert(out@ =~= pad_program_s(program@));
    out
}

/// Inputs that can be loaded onto the stack.
pub open spec fn inputs_ok(inputs: Seq<u64>) -> bool {
    inputs.len() <= STACK_WIDTH && forall|i: int| 0 <= i < inputs.len() ==> is_elem(#[trigger] inputs[i] as int)
}

/// The first row: the inputs on the stack (the first input on top), the
/// depth equal to their count, and a zero accumulator.
pub open spec fn init_row_s(inputs: Seq<u64>) -> Seq<u64> {
    Seq::new(
        NUM_COLS as nat,
        |j: int|
            if j < inputs.len() {
                inputs[j]
            } else if j == DEPTH_COL {
                inputs.len() as u64
            } else {
                0u64
            },
    )
}

/// The row at step `i`, or `None` where some earlier step faults.
pub open spec fn run_s(program: Seq<u64>, inputs: Seq<u64>, i: nat) -> Option<Seq<u64>>
    decreases i,
{
    if i == 0 {
        Some(init_row_s(inputs))
    } else {
        match run_s(program, inputs, (i - 1) as nat) {
            Some(r) => step_s(r, program[i - 1]),
            None => None,
        }
    }
}

pub fn init_row(inputs: &[u64]) -> (r: Vec<u64>)
    requires
        inputs_ok(inputs@),
    ensures
        r@ == init_row_s(inputs@),
        row_wf(r@),
{
    let mut out: Vec<u64> = Vec::new();
    let mut j: usize = 0;
    while j < NUM_COLS
        invariant
            j <= NUM_COLS,
            out@.len() == j,
            inputs_ok(inputs@),
            forall|k: int| 0 <= k < j ==> #[trigger] out@[k] == init_row_s(inputs@)[k],
        decreases NUM_COLS - j,
    {
        if j < inputs.len() {
            out.push(inputs[j]);
        } else if j == DEPTH_COL {
            out.push(inputs.len() as u64);
        } else {
            out.push(0);
        }
        j = j + 1;
    }
    assert(out@ =~= init_row_s(inputs@));
    out
}

/// Builds the rows of the trace: row 0 from the inputs, and each later row
/// by one step of the instruction before it. The last instruction is not
/// executed: it is the padding no-op.
pub fn build_rows(program: &Vec<u64>, inputs: &[u64]) -> (r: Result<Vec<Vec<u64>>, ExecError>)
    requires
        inputs_ok(inputs@),
        program@.len() >= 1,
    ensures
        match r {
            Ok(rows) => {
                &&& rows@.len() == program@.len()
                &&& forall|i: int| 0 <= i < rows@.len() ==> run_s(program@, inputs@, i as nat) == Some(#[trigger] rows@[i]@)
                &&& forall|i: int| 0 <= i < rows@.len() ==> row_wf(#[trigger] rows@[i]@)
            },
            Err(ExecError::StackFault { step }) => {
                &&& step + 1 < program@.len()
                &&& run_s(program@, inputs@, step as nat) is Some
                &&& run_s(program@, inputs@, step as nat + 1) is None
            },
            Err(_) => false,
        },
{
    let mut rows: Vec<Vec<u64>> = Vec::new();
    let first = init_row(inputs);
    rows.push(first);
    let mut i: usize = 1;
    while i < program.len()
        invariant
            1 <= i <= program@.len(),
            rows@.len() == i,
            forall|k: int| 0 <= k < i ==> run_s(program@, inputs@, k as nat) == Some(#[trigger] rows@[k]@),
            forall|k: int| 0 <= k < i ==> row_wf(#[trigger] rows@[k]@),
        decreases program@.len() - i,
    {
        let prev = &rows[i - 1];
        match step(prev, program[i - 1]) {
            Some(next) => {
                rows.push(next);
            },
            None => {
                assert(run_s(program@, inputs@, (i - 1) as nat) is Some);
                assert(run_s(program@, inputs@, i as nat) is None);
                return Err(ExecError::StackFault { step: i - 1 });
            },
        }
        i = i + 1;
    }
    Ok(rows)
}

} // verus!

verus! {

/// A trace length that a table can be built for.
pub open spec fn trace_len_ok(n: nat) -> bool {
    is_pow2(n) && n <= MAX_TRACE_LEN
}

/// An extension factor: a power of two in the accepted range.
pub open spec fn factor_ok(f: nat) -> bool {
    is_pow2(f) && MIN_EXTENSION_FACTOR <= f <= MAX_EXTENSION_FACTOR
}

/// Column `c` of a sequence of rows.
pub open spec fn column_s(rows: Seq<Seq<u64>>, c: int) -> Seq<u64> {
    Seq::new(rows.len(), |i: int| rows[i][c])
}

/// The extended evaluation domain for a trace of `n` rows: the powers of a
/// root of unity of order `n * f`.
pub open spec fn ext_points_s(n: nat, f: nat) -> Seq<u64> {
    powers_s(root_s(n * f), n * f)
}

/// The inverses of the points of the trace domain, whose generator is the
/// `f`-th power of the extended domain's generator.
pub open spec fn inv_points_s(n: nat, f: nat) -> Seq<u64> {
    powers_s(inv_s(pow_s(root_s(n * f), f)), n)
}

/// The low-degree extension of column `c`.
pub open spec fn lde_s(rows: Seq<Seq<u64>>, c: int, f: nat) -> Seq<u64> {
    eval_all_s(interpolate_s(column_s(rows, c), inv_points_s(rows.len(), f)), ext_points_s(rows.len(), f))
}

/// The interpolant of column `c` reproduces it on the trace domain.
pub open spec fn column_extends(rows: Seq<Seq<u64>>, c: int, f: nat) -> bool {
    forall|i: int| 0 <= i < rows.len() ==> #[trigger] lde_s(rows, c, f)[i * f] == rows[i][c]
}

/// The rows of a trace of `n` steps, where no step faults.
pub open spec fn rows_s(program: Seq<u64>, inputs: Seq<u64>) -> Seq<Seq<u64>> {
    Seq::new(program.len(), |i: int| run_s(program, inputs, i as nat).unwrap())
}

/// The machine state at one step of a trace.
#[derive(Clone, PartialEq, Eq, Debug)]
pub struct RegisterState {
    regs: Vec<u64>,
}

impl RegisterState {
    pub closed spec fn view(&self) -> Seq<u64> {
        self.regs@
    }

    pub open spec fn wf(&self) -> bool {
        row_wf(self@)
    }

    /// The stack slots, top first; slots at or below the depth are zero.
    pub fn get_stack(&self) -> (r: Vec<u64>)
        requires
            row_wf(self@),
        ensures
            r@ == self@.take(STACK_WIDTH as int),
    {
        let mut out: Vec<u64> = Vec::new();
        let mut j: usize = 0;
        while j < STACK_WIDTH
            invariant
                j <= STACK_WIDTH,
                row_wf(self@),
                out@ == self@.take(j as int),
            decreases STACK_WIDTH - j,
        {
            out.push(self.regs[j]);
            j = j + 1;
            assert(out@ =~= self@.take(j as int));
        }
        out
    }

    /// The number of populated stack slots.
    pub fn get_depth(&self) -> (r: u64)
        requires
            row_wf(self@),
        ensures
            r == self@[DEPTH_COL as int],
    {
        self.regs[DEPTH_COL]
    }

    /// The four lanes of the instruction accumulator.
    pub fn get_op_acc(&self) -> (r: [u64; 4])
        requires
            row_wf(self@),
        ensures
            r@ == self@.subrange(9, 13),
    {
        let r = [self.regs[9], self.regs[10], self.regs[11], self.regs[12]];
        assert(r@ =~= self@.subrange(9, 13));
        r
    }
}

/// The raw trace of an execution and the low-degree extension of each of its columns.
#[derive(Clone, Debug)]
pub struct TraceTable {
    rows: Vec<Vec<u64>>,
    lde: Vec<Vec<u64>>,
    ext_points: Vec<u64>,
    factor: usize,
    program: Vec<u64>,
}

impl TraceTable {
    pub closed spec fn rows(&self) -> Seq<Seq<u64>> {
        Seq::new(self.rows@.len(), |i: int| self.rows@[i]@)
    }

    /// The padded program that the trace executes.
    pub closed spec fn program(&self) -> Seq<u64> {
        self.program@
    }

    pub closed spec fn factor(&self) -> nat {
        self.factor as nat
    }

    /// Column `c` of the extension.
    pub closed spec fn lde(&self, c: int) -> Seq<u64> {
        self.lde@[c]@
    }

    pub closed spec fn ext_points(&self) -> Seq<u64> {
        self.ext_points@
    }

    pub closed spec fn wf(&self) -> bool {
        &&& trace_len_ok(self.rows().len())
        &&& factor_ok(self.factor())
        &&& forall|i: int| 0 <= i < self.rows().len() ==> row_wf(#[trigger] self.rows()[i])
        &&& self.lde@.len() == NUM_COLS
        &&& self.program@.len() == self.rows().len()
        &&& self.ext_points() == ext_points_s(self.rows().len(), self.factor())
        &&& forall|c: int| 0 <= c < NUM_COLS ==> #[trigger] self.lde(c) == lde_s(self.rows(), c, self.factor())
        &&& forall|c: int| 0 <= c < NUM_COLS ==> #[trigger] column_extends(self.rows(), c, self.factor())
    }

    /// Builds the trace of `program` (already padded) on `inputs`, and
    /// extends every column by `factor`.
    pub fn new(program: &[u64], inputs: &[u64], factor: usize) -> (r: Result<TraceTable, ExecError>)
        ensures
            match r {
                Ok(t) => {
                    &&& t.wf()
                    &&& table_ok_s(program@, inputs@, factor as nat)
                    &&& t.rows() == rows_s(program@, inputs@)
                    &&& t.factor() == factor
                    &&& t.program() == program@
                },
                Err(e) => table_error_s(program@, inputs@, factor as nat, e),
            },
    {
        if inputs.len() > STACK_WIDTH {
            return Err(ExecError::TooManyInputs);
        }
        let mut k: usize = 0;
        while k < inputs.len()
            invariant
                k <= inputs@.len(),
                inputs@.len() <= STACK_WIDTH,
                forall|j: int| 0 <= j < k ==> crate::field::is_elem(#[trigger] inputs@[j] as int),
            decreases inputs@.len() - k,
        {
            if inputs[k] >= MODULUS {
                assert(!crate::field::is_elem(inputs@[k as int] as int));
                assert(!inputs_ok(inputs@));
                return Err(ExecError::InputNotInField);
            }
            k = k + 1;
        }
        let n = program.len();
        if n > MAX_TRACE_LEN || !is_power_of_two(n) {
            return Err(ExecError::BadProgramLength);
        }
        if factor < MIN_EXTENSION_FACTOR || factor > MAX_EXTENSION_FACTOR || !is_power_of_two(factor) {
            return Err(ExecError::BadExtensionFactor);
        }
        let prog = crate::trace::to_vec(program);
        let rows = match build_rows(&prog, inputs) {
            Ok(rows) => rows,
            Err(e) => {
                proof {
                    if let ExecError::StackFault { step } = e {
                        lemma_fault_persists(program@, inputs@, step as nat + 1, (n - 1) as nat);
                    }
                }
                return Err(e);
            },
        };
        assert(run_s(program@, inputs@, (n - 1) as nat) == Some(rows@[n - 1]@));
        assert(1 <= n * factor <= MAX_TRACE_LEN * MAX_EXTENSION_FACTOR) by (nonlinear_arith)
            requires
                1 <= n,
                1 <= factor,
                n <= MAX_TRACE_LEN,
                factor <= MAX_EXTENSION_FACTOR,
        ;
        let total = n * factor;
        let g = root_of_unity(total as u64);
        let ext_points = powers(g, total);
        let inv_points = powers(finv(fpow(g, factor as u64)), n);
        let ghost rs = Seq::new(rows@.len(), |i: int| rows@[i]@);
        assert(rs == rows_s(program@, inputs@)) by {
            assert(rs =~= rows_s(program@, inputs@));
        }
        let mut lde: Vec<Vec<u64>> = Vec::new();
        let mut c: usize = 0;
        while c < NUM_COLS
            invariant
                c <= NUM_COLS,
                rs.len() == n,
                rows@.len() == n,
                trace_len_ok(n as nat),
                factor_ok(factor as nat),
                total == n * factor,
                rs == Seq::new(rows@.len(), |i: int| rows@[i]@),
                forall|i: int| 0 <= i < n ==> row_wf(#[trigger] rows@[i]@),
                ext_points@ == ext_points_s(n as nat, factor as nat),
                inv_points@ == inv_points_s(n as nat, factor as nat),
                elems(ext_points@),
                elems(inv_points@),
                lde@.len() == c,
                forall|j: int| 0 <= j < c ==> #[trigger] lde@[j]@ == lde_s(rs, j, factor as nat),
                forall|j: int| 0 <= j < c ==> #[trigger] column_extends(rs, j, factor as nat),
                rs == rows_s(program@, inputs@),
                run_s(program@, inputs@, (n - 1) as nat) is Some,
                inputs_ok(inputs@),
                n == program@.len(),
                prog@ == program@,
            decreases NUM_COLS - c,
        {
            let col = column(&rows, c);
            assert(col@ == column_s(rs, c as int)) by {
                assert(col@ =~= column_s(rs, c as int));
            }
            match extend(&col, &inv_points, &ext_points, factor) {
                Some(e) => {
                    assert(column_extends(rs, c as int, factor as nat));
                    lde.push(e);
                },
                None => {
                    proof {
                        let i = choose|i: int| 0 <= i < col@.len()
                            && !#[trigger] crate::poly::reproduces_at(interpolate_s(col@, inv_points@), ext_points@, col@, factor as nat, i);
                        assert(i * factor < n * factor) by (nonlinear_arith)
                            requires
                                0 <= i < n,
                                factor >= 1,
                        ;
                        crate::poly::lemma_eval_elem(interpolate_s(col@, inv_points@), ext_points@[i * factor] as int);
                        assert(lde_s(rs, c as int, factor as nat)[i * factor] != rs[i][c as int]);
                    }
                    assert(!column_extends(rs, c as int, factor as nat));
                    assert(!column_extends(rows_s(program@, inputs@), c as int, factor as nat));
                    return Err(ExecError::DomainError);
                },
            }
            c = c + 1;
        }
        let t = TraceTable { rows, lde, ext_points, factor, program: prog };
        assert(t.rows() == rs);
        Ok(t)
    }

    /// The number of rows.
    pub fn len(&self) -> (r: usize)
        requires
            self.wf(),
        ensures
            r == self.rows().len(),
    {
        self.rows.len()
    }

    pub fn extension_factor(&self) -> (r: usize)
        ensures
            r == self.factor(),
    {
        self.factor
    }

    /// The state at `step`; `None` where `step` is out of range.
    pub fn get_state(&self, step: usize) -> (r: Option<RegisterState>)
        requires
            self.wf(),
        ensures
            match r {
                Some(s) => step < self.rows().len() && s@ == self.rows()[step as int] && s.wf(),
                None => step >= self.rows().len(),
            },
    {
        if step < self.rows.len() {
            Some(RegisterState { regs: self.rows[step].clone() })
        } else {
            None
        }
    }

    /// Row `i` of the raw trace.
    pub fn row(&self, i: usize) -> (r: &Vec<u64>)
        requires
            self.wf(),
            i < self.rows().len(),
        ensures
            r@ == self.rows()[i as int],
    {
        &self.rows[i]
    }

    /// Column `c` of the extension.
    pub fn lde_col(&self, c: usize) -> (r: &Vec<u64>)
        requires
            self.wf(),
            c < NUM_COLS,
        ensures
            r@ == self.lde(c as int),
    {
        &self.lde[c]
    }

    /// The padded program.
    pub fn program_words(&self) -> (r: &Vec<u64>)
        ensures
            r@ == self.program(),
    {
        &self.program
    }

    /// The size of the extended domain.
    pub fn lde_len(&self) -> (r: usize)
        requires
            self.wf(),
        ensures
            r == self.rows().len() * self.factor(),
    {
        self.ext_points.len()
    }

    /// Column `c` of the extension; `None` where `c` is not a register.
    pub fn get_lde_column(&self, c: usize) -> (r: Option<Vec<u64>>)
        requires
            self.wf(),
        ensures
            match r {
                Some(e) => c < NUM_COLS && e@ == self.lde(c as int),
                None => c >= NUM_COLS,
            },
    {
        if c < NUM_COLS {
            Some(self.lde[c].clone())
        } else {
            None
        }
    }
}

/// Once a step faults, every later step does too.
pub proof fn lemma_fault_persists(program: Seq<u64>, inputs: Seq<u64>, i: nat, j: nat)
    requires
        i <= j,
        run_s(program, inputs, i) is None,
    ensures
        run_s(program, inputs, j) is None,
    decreases j - i,
{
    if i < j {
        lemma_fault_persists(program, inputs, i, (j - 1) as nat);
    }
}

/// Every check that building a table makes passes.
pub open spec fn table_ok_s(program: Seq<u64>, inputs: Seq<u64>, f: nat) -> bool {
    &&& inputs_ok(inputs)
    &&& trace_len_ok(program.len())
    &&& factor_ok(f)
    &&& run_s(program, inputs, (program.len() - 1) as nat) is Some
    &&& forall|c: int| 0 <= c < NUM_COLS ==> #[trigger] column_extends(rows_s(program, inputs), c, f)
}

/// Building a table fails with `e`: the first failed check, in the order
/// inputs, program length, extension factor, execution, extension.
pub open spec fn table_error_s(program: Seq<u64>, inputs: Seq<u64>, f: nat, e: ExecError) -> bool {
    if inputs.len() > STACK_WIDTH {
        e == ExecError::TooManyInputs
    } else if !inputs_ok(inputs) {
        e == ExecError::InputNotInField
    } else if !trace_len_ok(program.len()) {
        e == ExecError::BadProgramLength
    } else if !factor_ok(f) {
        e == ExecError::BadExtensionFactor
    } else if run_s(program, inputs, (program.len() - 1) as nat) is None {
        match e {
            ExecError::StackFault { step } => {
                &&& step + 1 < program.len()
                &&& run_s(program, inputs, step as nat) is Some
                &&& run_s(program, inputs, step as nat + 1) is None
            },
            _ => false,
        }
    } else {
        e == ExecError::DomainError && exists|c: int|
            0 <= c < NUM_COLS && !#[trigger] column_extends(rows_s(program, inputs), c, f)
    }
}

/// Whether `n` is a power of two.
pub fn is_power_of_two(n: usize) -> (r: bool)
    ensures
        r == is_pow2(n as nat),
    decreases n,
{
    if n == 1 {
        true
    } else if n >= 2 && n % 2 == 0 {
        is_power_of_two(n / 2)
    } else {
        false
    }
}

/// A copy of a slice.
pub fn to_vec(s: &[u64]) -> (r: Vec<u64>)
    ensures
        r@ == s@,
{
    let mut out: Vec<u64> = Vec::new();
    let mut i: usize = 0;
    while i < s.len()
        invariant
            i <= s@.len(),
            out@ == s@.take(i as int),
        decreases s@.len() - i,
    {
        out.push(s[i]);
        i = i + 1;
        assert(out@ =~= s@.take(i as int));
    }
    assert(out@ =~= s@);
    out
}

/// Column `c` of the rows.
fn column(rows: &Vec<Vec<u64>>, c: usize) -> (r: Vec<u64>)
    requires
        c < NUM_COLS,
        forall|i: int| 0 <= i < rows@.len() ==> row_wf(#[trigger] rows@[i]@),
    ensures
        r@ == column_s(Seq::new(rows@.len(), |i: int| rows@[i]@), c as int),
        elems(r@),
{
    let ghost rs = Seq::new(rows@.len(), |i: int| rows@[i]@);
    let mut out: Vec<u64> = Vec::new();
    let mut i: usize = 0;
    while i < rows.len()
        invariant
            i <= rows@.len(),
            c < NUM_COLS,
            rs == Seq::new(rows@.len(), |i: int| rows@[i]@),
            forall|k: int| 0 <= k < rows@.len() ==> row_wf(#[trigger] rows@[k]@),
            out@.len() == i,
            forall|k: int| 0 <= k < i ==> #[trigger] out@[k] == column_s(rs, c as int)[k],
            elems(out@),
        decreases rows@.len() - i,
    {
        out.push(rows[i][c]);
        i = i + 1;
    }
    assert(out@ =~= column_s(rs, c as int));
    out
}

} // verus!

verus! {

/// Every extended column spans the extended domain and holds field elements.
pub proof fn lemma_lde_facts(t: &TraceTable, c: int)
    requires
        t.wf(),
        0 <= c < NUM_COLS,
    ensures
        t.lde(c).len() == t.rows().len() * t.factor(),
        elems(t.lde(c)),
{
    assert(t.lde(c) == lde_s(t.rows(), c, t.factor()));
    let coeffs = interpolate_s(column_s(t.rows(), c), inv_points_s(t.rows().len(), t.factor()));
    let pts = ext_points_s(t.rows().len(), t.factor());
    assert forall|j: int| 0 <= j < t.lde(c).len() implies crate::field::is_elem(#[trigger] t.lde(c)[j] as int) by {
        crate::poly::lemma_eval_elem(coeffs, pts[j] as int);
    }
}

} // verus!

verus! {

/// A product of powers of two is a power of two.
pub proof fn lemma_mul_pow2(a: nat, b: nat)
    requires
        is_pow2(a),
        is_pow2(b),
    ensures
        is_pow2(a * b),
    decreases b,
{
    if b >= 2 {
        lemma_mul_pow2(a, b / 2);
        assert(a * b == 2 * (a * (b / 2))) by (nonlinear_arith)
            requires
                b % 2 == 0,
        ;
        lemma_double_pow2(a * (b / 2));
    } else {
        assert(b == 1);
        assert(a * b == a) by (nonlinear_arith)
            requires
                b == 1,
        ;
    }
}

/// What a well-formed table guarantees of its shape.
pub proof fn lemma_table_facts(t: &TraceTable)
    requires
        t.wf(),
    ensures
        trace_len_ok(t.rows().len()),
        t.rows().len() >= 1,
        factor_ok(t.factor()),
        t.program().len() == t.rows().len(),
        forall|i: int| 0 <= i < t.rows().len() ==> row_wf(#[trigger] t.rows()[i]),
        is_pow2(t.rows().len() * t.factor()),
        t.rows().len() * t.factor() >= 4,
        forall|c: int| 0 <= c < NUM_COLS ==> #[trigger] t.lde(c) == lde_s(t.rows(), c, t.factor()),
        t.rows().len() * t.factor() <= MAX_TRACE_LEN * MAX_EXTENSION_FACTOR,
{
    lemma_mul_pow2(t.rows().len(), t.factor());
    let n = t.rows().len();
    let f = t.factor();
    assert(n * f >= 4 && n * f <= MAX_TRACE_LEN * MAX_EXTENSION_FACTOR) by (nonlinear_arith)
        requires
            1 <= n <= MAX_TRACE_LEN,
            4 <= f <= MAX_EXTENSION_FACTOR,
    ;
}

} // verus!

verus! {

/// The padding law: the trace length of a non-empty program is a power of
/// two no smaller than the program, and strictly larger where the program's
/// length is itself a power of two.
pub proof fn lemma_padding_law(n: nat)
    requires
        n >= 1,
    ensures
        is_pow2(padded_length_s(n)),
        padded_length_s(n) >= n,
        is_pow2(n) ==> padded_length_s(n) > n,
{
    if is_pow2(n) {
        lemma_double_pow2(n);
    } else {
        lemma_pow2_search(n, 1);
    }
}

/// The round trip: the extension of every column, read back on the trace
/// domain, is the raw column.
pub proof fn lemma_round_trip(t: &TraceTable, c: int, i: int)
    requires
        t.wf(),
        0 <= c < NUM_COLS,
        0 <= i < t.rows().len(),
    ensures
        t.lde(c)[i * t.factor()] == t.rows()[i][c],
{
    assert(column_extends(t.rows(), c, t.factor()));
    assert(t.lde(c) == lde_s(t.rows(), c, t.factor()));
}

} // verus!
