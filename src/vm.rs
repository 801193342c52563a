//! The instruction set and its effect on one register row.
//!
//! A row holds `STACK_WIDTH` stack slots (slot 0 is the top), then the stack
//! depth, then the four lanes of the instruction accumulator. An instruction
//! word carries its opcode in the low byte and an immediate in the rest.
use vstd::prelude::*;
use crate::field::{fadd, fsub, fmul, is_elem, add_s, sub_s, mul_s, modulus};
use crate::hash::Digest;

verus! {

pub const STACK_WIDTH: usize = 8;

/// Index of the depth register.
pub const DEPTH_COL: usize = 8;

/// Number of registers in a row.
pub const NUM_COLS: usize = 13;

pub const NOOP: u64 = 0;
pub const PUSH: u64 = 1;
pub const DUP: u64 = 2;
pub const DROP: u64 = 3;
pub const SWAP: u64 = 4;
pub const ADD: u64 = 5;
pub const SUB: u64 = 6;
pub const MUL: u64 = 7;

/// The highest degree of a constraint relation in the registers and the
/// instruction columns: a selector times the product of two stack slots,
/// for `MUL`.
pub const MAX_CONSTRAINT_DEGREE: usize = 3;

/// The largest immediate that an instruction word can carry.
pub const MAX_IMMEDIATE: u64 = 0xff_ffff_ffff_ffff;

pub open spec fn opcode_of(w: u64) -> u64 {
    w % 256
}

pub open spec fn immediate_of(w: u64) -> u64 {
    w / 256
}

/// The instruction word that pushes `v`.
pub fn push_word(v: u64) -> (w: u64)
    requires
        v <= MAX_IMMEDIATE,
    ensures
        opcode_of(w) == PUSH,
        immediate_of(w) == v,
{
    v * 256 + PUSH
}

/// A row in which every register holds a field element.
pub open spec fn row_wf(row: Seq<u64>) -> bool {
    row.len() == NUM_COLS && forall|j: int| 0 <= j < NUM_COLS ==> is_elem(#[trigger] row[j] as int)
}

pub open spec fn depth_of(row: Seq<u64>) -> int {
    row[DEPTH_COL as int] as int
}

pub open spec fn acc_of(row: Seq<u64>) -> Digest {
    Digest { a: row[9], b: row[10], c: row[11], d: row[12] }
}

/// What an instruction other than the no-op does to the stack: how many
/// slots it pops, and what it pushes (top first). `None` where the stack
/// does not hold enough elements, would overflow, or the opcode is unknown.
pub open spec fn effect_s(row: Seq<u64>, w: u64) -> Option<(nat, Seq<u64>)> {
    let d = depth_of(row);
    let op = opcode_of(w);
    let s0 = row[0];
    let s1 = row[1];
    if op == PUSH {
        if d < STACK_WIDTH { Some((0nat, seq![immediate_of(w)])) } else { None }
    } else if op == DUP {
        if 1 <= d < STACK_WIDTH { Some((0nat, seq![s0])) } else { None }
    } else if op == DROP {
        if 1 <= d <= STACK_WIDTH { Some((1nat, Seq::<u64>::empty())) } else { None }
    } else if op == SWAP {
        if 2 <= d <= STACK_WIDTH { Some((2nat, seq![s1, s0])) } else { None }
    } else if op == ADD {
        if 2 <= d <= STACK_WIDTH { Some((2nat, seq![add_s(s1 as int, s0 as int) as u64])) } else { None }
    } else if op == SUB {
        if 2 <= d <= STACK_WIDTH { Some((2nat, seq![sub_s(s1 as int, s0 as int) as u64])) } else { None }
    } else if op == MUL {
        if 2 <= d <= STACK_WIDTH { Some((2nat, seq![mul_s(s1 as int, s0 as int) as u64])) } else { None }
    } else {
        None
    }
}

/// The multipliers of the four accumulator lanes.
pub const ACC_KEY_0: u64 = 3;
pub const ACC_KEY_1: u64 = 5;
pub const ACC_KEY_2: u64 = 7;
pub const ACC_KEY_3: u64 = 11;

/// The accumulator after absorbing instruction word `w`: each lane times its
/// multiplier, plus the word as a field element. A polynomial hash of the
/// executed words, of degree one in the registers.
pub open spec fn acc_next_s(row: Seq<u64>, w: u64) -> Digest {
    let v = w as int % modulus();
    Digest {
        a: add_s(mul_s(row[9] as int, ACC_KEY_0 as int), v) as u64,
        b: add_s(mul_s(row[10] as int, ACC_KEY_1 as int), v) as u64,
        c: add_s(mul_s(row[11] as int, ACC_KEY_2 as int), v) as u64,
        d: add_s(mul_s(row[12] as int, ACC_KEY_3 as int), v) as u64,
    }
}

/// The stack slots after popping `k` and pushing `front`; vacated slots are zero.
pub open spec fn restack_s(row: Seq<u64>, k: nat, front: Seq<u64>) -> Seq<u64> {
    Seq::new(
        STACK_WIDTH as nat,
        |i: int|
            if i < front.len() {
                front[i]
            } else if i - front.len() + k < STACK_WIDTH {
                row[i - front.len() + k]
            } else {
                0u64
            },
    )
}

/// The row after executing instruction word `w`; `None` on a stack fault or
/// an unknown opcode. The no-op leaves the row unchanged; every other
/// instruction also absorbs its word into the accumulator.
pub open spec fn step_s(row: Seq<u64>, w: u64) -> Option<Seq<u64>> {
    if opcode_of(w) == NOOP {
        Some(row)
    } else {
        match effect_s(row, w) {
            Some((k, front)) => {
                let acc = acc_next_s(row, w);
                Some(
                    restack_s(row, k, front) + seq![
                        (depth_of(row) - k + front.len()) as u64,
                        acc.a,
                        acc.b,
                        acc.c,
                        acc.d,
                    ],
                )
            },
            None => None,
        }
    }
}

fn effect(row: &Vec<u64>, w: u64) -> (r: Option<(usize, Vec<u64>)>)
    requires
        row_wf(row@),
    ensures
        match (r, effect_s(row@, w)) {
            (Some((k, f)), Some((ks, fs))) => k == ks && f@ == fs,
            (None, None) => true,
            _ => false,
        },
{
    let d = row[DEPTH_COL];
    let op = w % 256;
    let s0 = row[0];
    let s1 = row[1];
    if op == PUSH {
        if d < STACK_WIDTH as u64 { Some((0, vec![w / 256])) } else { None }
    } else if op == DUP {
        if 1 <= d && d < STACK_WIDTH as u64 { Some((0, vec![s0])) } else { None }
    } else if op == DROP {
        if 1 <= d && d <= STACK_WIDTH as u64 { Some((1, Vec::new())) } else { None }
    } else if op == SWAP {
        if 2 <= d && d <= STACK_WIDTH as u64 { Some((2, vec![s1, s0])) } else { None }
    } else if op == ADD {
        if 2 <= d && d <= STACK_WIDTH as u64 { Some((2, vec![fadd(s1, s0)])) } else { None }
    } else if op == SUB {
        if 2 <= d && d <= STACK_WIDTH as u64 { Some((2, vec![fsub(s1, s0)])) } else { None }
    } else if op == MUL {
        if 2 <= d && d <= STACK_WIDTH as u64 { Some((2, vec![fmul(s1, s0)])) } else { None }
    } else {
        None
    }
}

/// Executes one instruction word on a row.
pub fn step(row: &Vec<u64>, w: u64) -> (r: Option<Vec<u64>>)
    requires
        row_wf(row@),
    ensures
        match (r, step_s(row@, w)) {
            (Some(n), Some(ns)) => n@ == ns && row_wf(n@),
            (None, None) => true,
            _ => false,
        },
{
    if w % 256 == NOOP {
        return Some(row.clone());
    }
    match effect(row, w) {
        None => None,
        Some((k, front)) => {
            let ghost fs = front@;
            let d = row[DEPTH_COL];
            let v = w % crate::field::MODULUS;
            let acc = Digest {
                a: fadd(fmul(row[9], ACC_KEY_0), v),
                b: fadd(fmul(row[10], ACC_KEY_1), v),
                c: fadd(fmul(row[11], ACC_KEY_2), v),
                d: fadd(fmul(row[12], ACC_KEY_3), v),
            };
            let mut out: Vec<u64> = Vec::new();
            let mut i: usize = 0;
            while i < STACK_WIDTH
                invariant
                    i <= STACK_WIDTH,
                    out@.len() == i,
                    row_wf(row@),
                    k <= 2,
                    front@ == fs,
                    fs.len() <= 2,
                    effect_s(row@, w) == Some((k as nat, fs)),
                    forall|j: int| 0 <= j < i ==> out@[j] == #[trigger] restack_s(row@, k as nat, fs)[j],
                    forall|j: int| 0 <= j < i ==> is_elem(#[trigger] out@[j] as int),
                decreases STACK_WIDTH - i,
            {
                let v = if i < front.len() {
                    front[i]
                } else if i - front.len() + k < STACK_WIDTH {
                    row[i - front.len() + k]
                } else {
                    0
                };
                out.push(v);
                i = i + 1;
            }
            out.push(((d as usize) - k + front.len()) as u64);
            out.push(acc.a);
            out.push(acc.b);
            out.push(acc.c);
            out.push(acc.d);
            proof {
                let ns = step_s(row@, w).unwrap();
                assert(out@ =~= ns);
            }
            Some(out)
        },
    }
}

} // verus!

verus! {

/// A step keeps every register a field element.
pub proof fn lemma_step_wf(row: Seq<u64>, w: u64)
    requires
        row_wf(row),
        step_s(row, w) is Some,
    ensures
        row_wf(step_s(row, w).unwrap()),
{
}

} // verus!
