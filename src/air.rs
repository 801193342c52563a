//! The constraints as polynomial relations, so that they can be evaluated
//! on the extended domain and not only on trace rows.
//!
//! Besides the registers, each step has instruction columns: a selector
//! per opcode (one where the step's instruction has that opcode, else zero)
//! and the immediate. Between a row `cur`, the next row `nxt` and the
//! instruction columns `ins` of `cur`'s step, each register of `nxt` is
//! related to the sum over opcodes of the selector times what that opcode
//! leaves there. The relations have degree at most three (a selector times
//! the product of two stack slots, for `MUL`).
use vstd::prelude::*;
use crate::field::{fadd, fsub, fmul, is_elem, add_s, sub_s, mul_s, modulus};
use crate::vm::{opcode_of, immediate_of, row_wf, step_s, effect_s, restack_s, acc_next_s, depth_of, NUM_COLS, STACK_WIDTH, ACC_KEY_0, ACC_KEY_1, ACC_KEY_2, ACC_KEY_3};
use crate::constraints::{all_zero, first_residuals_s, last_residuals_s, first_residuals, last_residuals};
use crate::trace::{inputs_ok, run_s};
use crate::poly::elems;

verus! {

/// Number of opcodes, and of selector columns.
pub const NUM_OPS: usize = 8;

/// Number of instruction columns: the selectors, then the immediate.
pub const NUM_INS: usize = 9;

/// The instruction columns of a step whose instruction word is `w`.
pub open spec fn ins_row_s(w: u64) -> Seq<u64> {
    Seq::new(
        NUM_INS as nat,
        |k: int| if k < NUM_OPS { if opcode_of(w) == k { 1u64 } else { 0u64 } } else { immediate_of(w) },
    )
}

/// What opcode `op` leaves in stack slot `k`, given the slots of `cur` and the immediate.
pub open spec fn slot_effect_s(cur: Seq<u64>, imm: int, op: int, k: int) -> int {
    let below = if k + 1 < STACK_WIDTH { cur[k + 1] as int } else { 0 };
    if op == 0 {
        cur[k] as int
    } else if op == 1 {
        if k == 0 { imm } else { cur[k - 1] as int }
    } else if op == 2 {
        if k == 0 { cur[0] as int } else { cur[k - 1] as int }
    } else if op == 3 {
        below
    } else if op == 4 {
        if k == 0 { cur[1] as int } else if k == 1 { cur[0] as int } else { cur[k] as int }
    } else if op == 5 {
        if k == 0 { add_s(cur[1] as int, cur[0] as int) } else { below }
    } else if op == 6 {
        if k == 0 { sub_s(cur[1] as int, cur[0] as int) } else { below }
    } else {
        if k == 0 { mul_s(cur[1] as int, cur[0] as int) } else { below }
    }
}

/// The sum over the first `n` opcodes of selector times `slot_effect_s`.
pub open spec fn slot_sum_s(cur: Seq<u64>, ins: Seq<u64>, k: int, n: nat) -> int
    decreases n,
{
    if n == 0 {
        0
    } else {
        add_s(
            slot_sum_s(cur, ins, k, (n - 1) as nat),
            mul_s(ins[n - 1] as int, slot_effect_s(cur, ins[8] as int, n - 1, k)),
        )
    }
}

/// The instruction word that the instruction columns encode, as a field element.
pub open spec fn word_s(ins: Seq<u64>) -> int {
    add_s(
        add_s(
            add_s(add_s(ins[1] as int, mul_s(2, ins[2] as int)), add_s(mul_s(3, ins[3] as int), mul_s(4, ins[4] as int))),
            add_s(add_s(mul_s(5, ins[5] as int), mul_s(6, ins[6] as int)), mul_s(7, ins[7] as int)),
        ),
        mul_s(256, ins[8] as int),
    )
}

pub open spec fn acc_key_s(l: int) -> int {
    if l == 0 {
        ACC_KEY_0 as int
    } else if l == 1 {
        ACC_KEY_1 as int
    } else if l == 2 {
        ACC_KEY_2 as int
    } else {
        ACC_KEY_3 as int
    }
}

/// What the relations require of register `k` of the next row.
pub open spec fn expect_s(cur: Seq<u64>, ins: Seq<u64>, k: int) -> int {
    if k < STACK_WIDTH {
        slot_sum_s(cur, ins, k, NUM_OPS as nat)
    } else if k == STACK_WIDTH {
        // the depth grows by one for PUSH and DUP and shrinks by one for
        // DROP, ADD, SUB and MUL
        add_s(
            cur[8] as int,
            sub_s(
                add_s(ins[1] as int, ins[2] as int),
                add_s(add_s(ins[3] as int, ins[5] as int), add_s(ins[6] as int, ins[7] as int)),
            ),
        )
    } else {
        // each accumulator lane, unless the step is a no-op, times its
        // multiplier plus the word
        let a = cur[k] as int;
        add_s(a, mul_s(sub_s(1, ins[0] as int), add_s(mul_s(a, acc_key_s(k - 9) - 1), word_s(ins))))
    }
}

/// The transition relations as residuals: each register of `nxt` minus
/// what the relations require of it.
pub open spec fn transition_poly_s(cur: Seq<u64>, nxt: Seq<u64>, ins: Seq<u64>) -> Seq<u64> {
    Seq::new(NUM_COLS as nat, |k: int| sub_s(nxt[k] as int, expect_s(cur, ins, k)) as u64)
}

/// Every constraint at one point: the transition relations toward the next
/// point, the boundary relations of the first row against the inputs, and
/// those of the last row against the outputs.
pub open spec fn constraint_values_s(
    cur: Seq<u64>,
    nxt: Seq<u64>,
    ins: Seq<u64>,
    inputs: Seq<u64>,
    outputs: Seq<u64>,
) -> Seq<u64> {
    transition_poly_s(cur, nxt, ins) + first_residuals_s(cur, inputs) + last_residuals_s(cur, outputs)
}

/// The instruction columns of a step.
pub fn ins_row(w: u64) -> (r: Vec<u64>)
    ensures
        r@ == ins_row_s(w),
        elems(r@),
{
    let op = w % 256;
    let mut out: Vec<u64> = Vec::new();
    let mut k: u64 = 0;
    while k < NUM_OPS as u64
        invariant
            k <= NUM_OPS,
            op == opcode_of(w),
            out@.len() == k,
            forall|j: int| 0 <= j < k ==> #[trigger] out@[j] == ins_row_s(w)[j],
            elems(out@),
        decreases NUM_OPS - k,
    {
        if op == k {
            out.push(1);
        } else {
            out.push(0);
        }
        k = k + 1;
    }
    out.push(w / 256);
    assert(out@ =~= ins_row_s(w));
    out
}

fn slot_effect(cur: &Vec<u64>, imm: u64, op: usize, k: usize) -> (r: u64)
    requires
        row_wf(cur@),
        is_elem(imm as int),
        op < NUM_OPS,
        k < STACK_WIDTH,
    ensures
        r as int == slot_effect_s(cur@, imm as int, op as int, k as int),
        is_elem(r as int),
{
    let below: u64 = if k + 1 < STACK_WIDTH { cur[k + 1] } else { 0 };
    if op == 0 {
        cur[k]
    } else if op == 1 {
        if k == 0 { imm } else { cur[k - 1] }
    } else if op == 2 {
        if k == 0 { cur[0] } else { cur[k - 1] }
    } else if op == 3 {
        below
    } else if op == 4 {
        if k == 0 { cur[1] } else if k == 1 { cur[0] } else { cur[k] }
    } else if op == 5 {
        if k == 0 { fadd(cur[1], cur[0]) } else { below }
    } else if op == 6 {
        if k == 0 { fsub(cur[1], cur[0]) } else { below }
    } else {
        if k == 0 { fmul(cur[1], cur[0]) } else { below }
    }
}

fn expect(cur: &Vec<u64>, ins: &Vec<u64>, k: usize) -> (r: u64)
    requires
        row_wf(cur@),
        ins@.len() == NUM_INS,
        elems(ins@),
        k < NUM_COLS,
    ensures
        r as int == expect_s(cur@, ins@, k as int),
        is_elem(r as int),
{
    if k < STACK_WIDTH {
        let mut acc: u64 = 0;
        let mut op: usize = 0;
        while op < NUM_OPS
            invariant
                op <= NUM_OPS,
                row_wf(cur@),
                ins@.len() == NUM_INS,
                elems(ins@),
                k < STACK_WIDTH,
                acc as int == slot_sum_s(cur@, ins@, k as int, op as nat),
                is_elem(acc as int),
            decreases NUM_OPS - op,
        {
            let e = slot_effect(cur, ins[8], op, k);
            acc = fadd(acc, fmul(ins[op], e));
            op = op + 1;
        }
        acc
    } else if k == STACK_WIDTH {
        fadd(cur[8], fsub(fadd(ins[1], ins[2]), fadd(fadd(ins[3], ins[5]), fadd(ins[6], ins[7]))))
    } else {
        let a = cur[k];
        let key: u64 = if k == 9 {
            ACC_KEY_0
        } else if k == 10 {
            ACC_KEY_1
        } else if k == 11 {
            ACC_KEY_2
        } else {
            ACC_KEY_3
        };
        let word = fadd(
            fadd(
                fadd(fadd(ins[1], fmul(2, ins[2])), fadd(fmul(3, ins[3]), fmul(4, ins[4]))),
                fadd(fadd(fmul(5, ins[5]), fmul(6, ins[6])), fmul(7, ins[7])),
            ),
            fmul(256, ins[8]),
        );
        fadd(a, fmul(fsub(1, ins[0]), fadd(fmul(a, key - 1), word)))
    }
}

/// Evaluates the transition relations.
pub fn transition_poly(cur: &Vec<u64>, nxt: &Vec<u64>, ins: &Vec<u64>) -> (r: Vec<u64>)
    requires
        row_wf(cur@),
        row_wf(nxt@),
        ins@.len() == NUM_INS,
        elems(ins@),
    ensures
        r@ == transition_poly_s(cur@, nxt@, ins@),
        elems(r@),
{
    let mut out: Vec<u64> = Vec::new();
    let mut k: usize = 0;
    while k < NUM_COLS
        invariant
            k <= NUM_COLS,
            row_wf(cur@),
            row_wf(nxt@),
            ins@.len() == NUM_INS,
            elems(ins@),
            out@.len() == k,
            forall|j: int| 0 <= j < k ==> #[trigger] out@[j] == transition_poly_s(cur@, nxt@, ins@)[j],
            elems(out@),
        decreases NUM_COLS - k,
    {
        let e = expect(cur, ins, k);
        out.push(fsub(nxt[k], e));
        k = k + 1;
    }
    assert(out@ =~= transition_poly_s(cur@, nxt@, ins@));
    out
}

/// Evaluates every constraint at one point.
pub fn constraint_values(
    cur: &Vec<u64>,
    nxt: &Vec<u64>,
    ins: &Vec<u64>,
    inputs: &[u64],
    outputs: &Vec<u64>,
) -> (r: Vec<u64>)
    requires
        row_wf(cur@),
        row_wf(nxt@),
        ins@.len() == NUM_INS,
        elems(ins@),
        inputs_ok(inputs@),
        outputs@.len() <= NUM_COLS,
        elems(outputs@),
    ensures
        r@ == constraint_values_s(cur@, nxt@, ins@, inputs@, outputs@),
        elems(r@),
{
    let mut r = transition_poly(cur, nxt, ins);
    let mut a = first_residuals(cur, inputs);
    let mut b = last_residuals(cur, outputs);
    proof {
        assert forall|j: int| 0 <= j < a@.len() implies is_elem(#[trigger] a@[j] as int) by {}
        assert forall|j: int| 0 <= j < b@.len() implies is_elem(#[trigger] b@[j] as int) by {}
    }
    r.append(&mut a);
    r.append(&mut b);
    r
}

} // verus!

verus! {

proof fn lemma_small(x: int)
    requires
        0 <= x < modulus(),
    ensures
        x % modulus() == x,
{
    vstd::arithmetic::div_mod::lemma_small_mod(x as nat, modulus() as nat);
}

/// With one-hot selectors, the sum over opcodes is the active opcode's effect.
proof fn lemma_slot_sum(cur: Seq<u64>, ins: Seq<u64>, k: int, n: nat, op: int)
    requires
        row_wf(cur),
        ins.len() == NUM_INS,
        is_elem(ins[8] as int),
        0 <= op < NUM_OPS,
        n <= NUM_OPS,
        0 <= k < STACK_WIDTH,
        forall|m: int| 0 <= m < NUM_OPS ==> #[trigger] ins[m] == (if m == op { 1u64 } else { 0u64 }),
    ensures
        slot_sum_s(cur, ins, k, n) == (if op < n { slot_effect_s(cur, ins[8] as int, op, k) } else { 0 }),
    decreases n,
{
    if n > 0 {
        lemma_slot_sum(cur, ins, k, (n - 1) as nat, op);
        let e = slot_effect_s(cur, ins[8] as int, n - 1, k);
        assert(is_elem(e));
        lemma_small(e);
        if n - 1 == op {
            assert(mul_s(1, e) == e);
            assert(add_s(0, e) == e);
        } else {
            let prev = slot_sum_s(cur, ins, k, (n - 1) as nat);
            assert(mul_s(0, e) == 0);
            assert(is_elem(prev));
            lemma_small(prev);
            assert(add_s(prev, 0) == prev);
        }
    }
}

proof fn lemma_lane(a: int, key: int, v: int)
    requires
        is_elem(a),
        is_elem(v),
        key >= 1,
    ensures
        add_s(a, mul_s(sub_s(1, 0), add_s(mul_s(a, key - 1), v))) == add_s(mul_s(a, key), v),
{
    let p = modulus();
    lemma_small(1);
    assert(sub_s(1, 0) == 1);
    let x = add_s(mul_s(a, key - 1), v);
    assert(0 <= x < p);
    lemma_small(x);
    assert(mul_s(1, x) == x);
    vstd::arithmetic::div_mod::lemma_add_mod_noop(a * (key - 1), v, p);
    lemma_small(v);
    assert(x == (a * (key - 1) + v) % p);
    lemma_small(a);
    vstd::arithmetic::div_mod::lemma_add_mod_noop(a, a * (key - 1) + v, p);
    assert(add_s(a, x) == (a + a * (key - 1) + v) % p);
    assert(a + a * (key - 1) == a * key) by (nonlinear_arith);
    vstd::arithmetic::div_mod::lemma_add_mod_noop(a * key, v, p);
}

proof fn lemma_word(w: u64)
    requires
        1 <= opcode_of(w) < NUM_OPS,
    ensures
        word_s(ins_row_s(w)) == w as int % modulus(),
{
    let p = modulus();
    let ins = ins_row_s(w);
    let op = opcode_of(w) as int;
    let imm = immediate_of(w) as int;
    lemma_small(imm);
    assert forall|m: int| 1 <= m < NUM_OPS implies mul_s(m, #[trigger] ins[m] as int) == (if m == op { m } else { 0 }) by {
        lemma_small(m);
    }
    assert(ins[1] as int == (if op == 1 { 1int } else { 0 }));
    lemma_small(op);
    assert(add_s(
        add_s(add_s(ins[1] as int, mul_s(2, ins[2] as int)), add_s(mul_s(3, ins[3] as int), mul_s(4, ins[4] as int))),
        add_s(add_s(mul_s(5, ins[5] as int), mul_s(6, ins[6] as int)), mul_s(7, ins[7] as int)),
    ) == op);
    assert(w as int == 256 * imm + op);
    vstd::arithmetic::div_mod::lemma_add_mod_noop(op, 256 * imm, p);
}


/// What the active opcode leaves in a stack slot is what the step leaves there.
proof fn lemma_slot_effect_matches(cur: Seq<u64>, w: u64, k: int)
    requires
        row_wf(cur),
        step_s(cur, w) is Some,
        0 <= k < STACK_WIDTH,
    ensures
        slot_effect_s(cur, immediate_of(w) as int, opcode_of(w) as int, k) == step_s(cur, w).unwrap()[k] as int,
{
    let op = opcode_of(w);
    if op != 0 {
        let (kp, front) = effect_s(cur, w).unwrap();
        assert(step_s(cur, w).unwrap()[k] == restack_s(cur, kp, front)[k]);
    }
}

/// What the relations require of the depth is the depth after the step.
proof fn lemma_depth_matches(cur: Seq<u64>, w: u64)
    requires
        row_wf(cur),
        step_s(cur, w) is Some,
    ensures
        expect_s(cur, ins_row_s(w), STACK_WIDTH as int) == step_s(cur, w).unwrap()[STACK_WIDTH as int] as int,
{
    let p = modulus();
    let ins = ins_row_s(w);
    let op = opcode_of(w);
    let d = cur[8] as int;
    lemma_small(d);
    lemma_small(1);
    lemma_small(2);
    let up = add_s(ins[1] as int, ins[2] as int);
    let down = add_s(add_s(ins[3] as int, ins[5] as int), add_s(ins[6] as int, ins[7] as int));
    if op == 1 || op == 2 {
        assert(up == 1 && down == 0);
        assert(sub_s(1, 0) == 1);
        lemma_small(d + 1);
    } else if op == 3 || op == 5 || op == 6 || op == 7 {
        assert(up == 0 && down == 1);
        assert(sub_s(0, 1) == p - 1) by {
            vstd::arithmetic::div_mod::lemma_mod_add_multiples_vanish(-1, p);
            lemma_small(p - 1);
        }
        assert(add_s(d, p - 1) == d - 1) by {
            vstd::arithmetic::div_mod::lemma_mod_add_multiples_vanish(d - 1, p);
            lemma_small(d - 1);
        }
    } else {
        assert(up == 0 && down == 0);
        assert(sub_s(0, 0) == 0);
    }
}

/// What the relations require of an accumulator lane is the lane after the step.
proof fn lemma_lane_matches(cur: Seq<u64>, w: u64, k: int)
    requires
        row_wf(cur),
        step_s(cur, w) is Some,
        9 <= k < NUM_COLS,
    ensures
        expect_s(cur, ins_row_s(w), k) == step_s(cur, w).unwrap()[k] as int,
{
    let ins = ins_row_s(w);
    let a = cur[k] as int;
    lemma_small(a);
    if opcode_of(w) == 0 {
        assert(sub_s(1, 1) == 0);
        assert(mul_s(0, add_s(mul_s(a, acc_key_s(k - 9) - 1), word_s(ins))) == 0);
    } else {
        lemma_word(w);
        lemma_lane(a, acc_key_s(k - 9), w as int % modulus());
        assert(ins[0] == 0);
        let acc = acc_next_s(cur, w);
        if k == 9 {
            assert(step_s(cur, w).unwrap()[k] == acc.a);
        } else if k == 10 {
            assert(step_s(cur, w).unwrap()[k] == acc.b);
        } else if k == 11 {
            assert(step_s(cur, w).unwrap()[k] == acc.c);
        } else {
            assert(step_s(cur, w).unwrap()[k] == acc.d);
        }
    }
}

/// The polynomial relations hold on every step: where `w` executes on `cur`
/// without a fault, the transition relations between `cur`, the next row
/// and the instruction columns of `w` are all zero.
pub proof fn lemma_step_satisfies_relations(cur: Seq<u64>, w: u64)
    requires
        row_wf(cur),
        step_s(cur, w) is Some,
    ensures
        all_zero(transition_poly_s(cur, step_s(cur, w).unwrap(), ins_row_s(w))),
{
    let nxt = step_s(cur, w).unwrap();
    let ins = ins_row_s(w);
    let op = opcode_of(w) as int;
    crate::vm::lemma_step_wf(cur, w);
    assert(0 <= op < NUM_OPS);
    assert forall|k: int| 0 <= k < NUM_COLS implies #[trigger] transition_poly_s(cur, nxt, ins)[k] == 0 by {
        if k < STACK_WIDTH {
            assert forall|m: int| 0 <= m < NUM_OPS implies #[trigger] ins[m] == (if m == op { 1u64 } else { 0u64 }) by {}
            lemma_slot_sum(cur, ins, k, NUM_OPS as nat, op);
            lemma_slot_effect_matches(cur, w, k);
        } else if k == STACK_WIDTH {
            lemma_depth_matches(cur, w);
        } else {
            lemma_lane_matches(cur, w, k);
        }
        assert(expect_s(cur, ins, k) == nxt[k] as int);
        assert(sub_s(nxt[k] as int, nxt[k] as int) == 0);
    }
}

} // verus!

verus! {

/// Trace consistency for the polynomial relations: between any two adjacent
/// rows that execution reaches, with the instruction columns of the step
/// between them, every transition relation is zero.
pub proof fn lemma_trace_relations(program: Seq<u64>, inputs: Seq<u64>, i: nat)
    requires
        inputs_ok(inputs),
        run_s(program, inputs, i + 1) is Some,
    ensures
        all_zero(
            transition_poly_s(
                run_s(program, inputs, i).unwrap(),
                run_s(program, inputs, i + 1).unwrap(),
                ins_row_s(program[i as int]),
            ),
        ),
{
    crate::constraints::lemma_run_wf(program, inputs, i);
    lemma_step_satisfies_relations(run_s(program, inputs, i).unwrap(), program[i as int]);
}

} // verus!
