//! The proof engine: checks the trace against its constraints, commits to
//! the extended trace, combines the constraint relations evaluated on the
//! extended domain into a composition polynomial,
//! runs the folding protocol that certifies low degree, and opens every
//! committed vector at positions drawn from the transcript.
use vstd::prelude::*;
use crate::field::{fadd, fsub, fmul, finv, is_elem, add_s, sub_s, mul_s, inv_s};
use crate::hash::{Digest, absorb, absorb_s, absorb_all, absorb_all_s, permute, permute_s};
use crate::merkle::{leaf, leaf_s, root, root_s, path, path_s, digests_wf};
use crate::poly::{elems, eval, eval_s, powers, powers_s, root_s as unity_root_s, root_of_unity};
use crate::trace::{TraceTable, is_pow2, lde_s, inputs_ok, lemma_table_facts};
use crate::constraints::{all_zero, constraints_hold_s, first_residuals, last_residuals, transition_residuals};
use crate::error::ExecError;
use crate::vm::NUM_COLS;
use crate::air::{ins_row, ins_row_s, constraint_values, constraint_values_s, NUM_INS};
use crate::poly::{interpolate, interpolate_s, eval_all, eval_all_s};
use crate::trace::{ext_points_s, inv_points_s};
use crate::field::fpow;

verus! {

/// Number of positions at which every commitment is opened.
pub const NUM_QUERIES: usize = 4;

/// The rows of a matrix held as vectors.
pub open spec fn mview(m: Seq<Vec<u64>>) -> Seq<Seq<u64>> {
    Seq::new(m.len(), |i: int| m[i]@)
}

pub open spec fn leaves_s(m: Seq<Seq<u64>>) -> Seq<Digest> {
    Seq::new(m.len(), |i: int| leaf_s(m[i]))
}

/// The commitment to a matrix: the Merkle root over the digests of its rows.
pub open spec fn commit_s(m: Seq<Seq<u64>>) -> Digest {
    root_s(leaves_s(m))
}

/// A challenge drawn from a commitment.
pub open spec fn challenge_s(d: Digest) -> int {
    permute_s(d).a as int
}

/// Each value as a row of its own.
pub open spec fn singles_s(f: Seq<u64>) -> Seq<Seq<u64>> {
    Seq::new(f.len(), |j: int| seq![f[j]])
}

/// The extended trace by rows: row `j` holds every column at the `j`-th point.
pub open spec fn ext_rows_s(rows: Seq<Seq<u64>>, f: nat) -> Seq<Seq<u64>> {
    Seq::new(rows.len() * f, |j: int| Seq::new(crate::vm::NUM_COLS as nat, |c: int| lde_s(rows, c, f)[j]))
}

/// Instruction column `k` of `program`: one value per step.
pub open spec fn ins_column_s(program: Seq<u64>, k: int) -> Seq<u64> {
    Seq::new(program.len(), |i: int| ins_row_s(program[i])[k])
}

/// The instruction columns of `program` extended by `f`, by rows.
pub open spec fn ins_ext_rows_s(program: Seq<u64>, f: nat) -> Seq<Seq<u64>> {
    let n = program.len();
    Seq::new(
        n * f,
        |j: int|
            Seq::new(
                NUM_INS as nat,
                |k: int| eval_all_s(interpolate_s(ins_column_s(program, k), inv_points_s(n, f)), ext_points_s(n, f))[j],
            ),
    )
}

/// The composition: at each extended point, every constraint value (the
/// transition relations toward the point `f` further on, which is the next
/// step's point, and the boundary relations) combined by the powers of `alpha`.
pub open spec fn composition_s(
    rows: Seq<Seq<u64>>,
    ins: Seq<Seq<u64>>,
    f: nat,
    alpha: int,
    inputs: Seq<u64>,
    outputs: Seq<u64>,
) -> Seq<u64> {
    Seq::new(
        rows.len(),
        |j: int|
            eval_s(constraint_values_s(rows[j], rows[(j + f) % (rows.len() as int)], ins[j], inputs, outputs), alpha) as u64,
    )
}

/// One folding step: the values at `x` and `-x` (half the domain apart)
/// combine into the even part plus `beta` times the odd part, on a domain
/// of half the size. `inv_x` holds the inverses of the first half's points.
pub open spec fn fold_s(f: Seq<u64>, inv_x: Seq<u64>, beta: int) -> Seq<u64> {
    let h = f.len() / 2;
    let i2 = inv_s(2);
    Seq::new(
        h,
        |j: int|
            {
                let a = f[j] as int;
                let b = f[j + h] as int;
                add_s(mul_s(i2, add_s(a, b)), mul_s(beta, mul_s(i2, mul_s(sub_s(a, b), inv_x[j] as int)))) as u64
            },
    )
}

/// The layers of the folding protocol from `f`, whose domain's generator has
/// inverse `ig`, down to a layer of at most `stop` values. Each layer is
/// folded with a challenge drawn from its own commitment.
pub open spec fn fri_s(f: Seq<u64>, ig: int, stop: nat) -> Seq<Seq<u64>>
    decreases f.len(),
{
    if f.len() <= stop || f.len() < 2 {
        seq![f]
    } else {
        seq![f] + fri_s(
            fold_s(f, powers_s(ig, f.len() / 2), challenge_s(commit_s(singles_s(f)))),
            mul_s(ig, ig),
            stop,
        )
    }
}

/// A row of a committed matrix with its authentication path.
#[derive(Clone, PartialEq, Eq, Debug)]
pub struct Opening {
    pub index: usize,
    pub values: Vec<u64>,
    pub path: Vec<Digest>,
}

pub ghost struct OpeningView {
    pub index: nat,
    pub values: Seq<u64>,
    pub path: Seq<Digest>,
}

impl Opening {
    pub open spec fn view(&self) -> OpeningView {
        OpeningView { index: self.index as nat, values: self.values@, path: self.path@ }
    }
}

pub open spec fn open_s(m: Seq<Seq<u64>>, i: nat) -> OpeningView {
    OpeningView { index: i, values: m[i as int], path: path_s(leaves_s(m), i) }
}

/// The openings for one query position.
#[derive(Clone, PartialEq, Eq, Debug)]
pub struct QueryProof {
    pub trace: Opening,
    pub layers: Vec<Opening>,
}

pub ghost struct QueryView {
    pub trace: OpeningView,
    pub layers: Seq<OpeningView>,
}

impl QueryProof {
    pub open spec fn view(&self) -> QueryView {
        QueryView { trace: self.trace@, layers: Seq::new(self.layers@.len(), |k: int| self.layers@[k]@) }
    }
}

/// The openings at position `p`: the extended trace row at `p`, and in each
/// committed folding layer of `2h` values the pair at `p mod h` and `p mod h + h`.
pub open spec fn query_s(rows: Seq<Seq<u64>>, layers: Seq<Seq<u64>>, p: nat) -> QueryView {
    QueryView {
        trace: open_s(rows, p),
        layers: Seq::new(
            2 * (layers.len() - 1) as nat,
            |k: int|
                {
                    let h = layers[k / 2].len() / 2;
                    open_s(singles_s(layers[k / 2]), (p % h + (k % 2) * h) as nat)
                },
        ),
    }
}

/// The `q`-th query position in a domain of `n` points.
pub open spec fn position_s(seed: Digest, q: nat, n: nat) -> nat {
    (absorb_s(seed, q + 1 as int).a as nat) % n
}

/// The proof artifact.
#[derive(Clone, PartialEq, Eq, Debug)]
pub struct ProofArtifact {
    pub trace_root: Digest,
    pub layer_roots: Vec<Digest>,
    pub remainder: Vec<u64>,
    pub queries: Vec<QueryProof>,
    pub outputs: Vec<u64>,
    pub program_hash: [u64; 4],
}

pub ghost struct ProofView {
    pub trace_root: Digest,
    pub layer_roots: Seq<Digest>,
    pub remainder: Seq<u64>,
    pub queries: Seq<QueryView>,
    pub outputs: Seq<u64>,
    pub program_hash: Seq<u64>,
}

impl ProofArtifact {
    pub open spec fn view(&self) -> ProofView {
        ProofView {
            trace_root: self.trace_root,
            layer_roots: self.layer_roots@,
            remainder: self.remainder@,
            queries: Seq::new(self.queries@.len(), |q: int| self.queries@[q]@),
            outputs: self.outputs@,
            program_hash: self.program_hash@,
        }
    }
}

/// The artifact that proving a trace of `program` with these inputs and outputs yields.
pub open spec fn proof_s(
    trace: Seq<Seq<u64>>,
    program: Seq<u64>,
    factor: nat,
    inputs: Seq<u64>,
    outputs: Seq<u64>,
) -> ProofView {
    let rows = ext_rows_s(trace, factor);
    let n = rows.len();
    let trace_root = commit_s(rows);
    let comp = composition_s(rows, ins_ext_rows_s(program, factor), factor, challenge_s(trace_root), inputs, outputs);
    let layers = fri_s(comp, inv_s(unity_root_s(n)), factor);
    let roots = Seq::new((layers.len() - 1) as nat, |k: int| commit_s(singles_s(layers[k])));
    let last_root = if roots.len() == 0 { trace_root } else { roots.last() };
    let seed = absorb_all_s(last_root, layers.last());
    ProofView {
        trace_root,
        layer_roots: roots,
        remainder: layers.last(),
        queries: Seq::new(NUM_QUERIES as nat, |q: int| query_s(rows, layers, position_s(seed, q as nat, n))),
        outputs,
        program_hash: trace.last().subrange(9, 13),
    }
}

} // verus!

verus! {

pub open spec fn rows_wf(m: Seq<Seq<u64>>) -> bool {
    forall|i: int| 0 <= i < m.len() ==> elems(#[trigger] m[i])
}

/// The extended trace by rows.
fn ext_rows(t: &TraceTable) -> (r: Vec<Vec<u64>>)
    requires
        t.wf(),
    ensures
        mview(r@) == ext_rows_s(t.rows(), t.factor()),
        rows_wf(mview(r@)),
        r@.len() == t.rows().len() * t.factor(),
        forall|j: int| 0 <= j < r@.len() ==> (#[trigger] r@[j])@.len() == NUM_COLS,
{
    let total = t.lde_len();
    let ghost target = ext_rows_s(t.rows(), t.factor());
    let mut out: Vec<Vec<u64>> = Vec::new();
    let mut j: usize = 0;
    while j < total
        invariant
            t.wf(),
            total == t.rows().len() * t.factor(),
            target == ext_rows_s(t.rows(), t.factor()),
            j <= total,
            out@.len() == j,
            forall|k: int| 0 <= k < j ==> #[trigger] out@[k]@ == target[k],
            forall|k: int| 0 <= k < j ==> elems(#[trigger] out@[k]@),
        decreases total - j,
    {
        let mut row: Vec<u64> = Vec::new();
        let mut c: usize = 0;
        while c < crate::vm::NUM_COLS
            invariant
                t.wf(),
                total == t.rows().len() * t.factor(),
                j < total,
                c <= crate::vm::NUM_COLS,
                row@.len() == c,
                forall|k: int| 0 <= k < c ==> #[trigger] row@[k] == t.lde(k)[j as int],
                elems(row@),
            decreases crate::vm::NUM_COLS - c,
        {
            proof {
                crate::trace::lemma_lde_facts(t, c as int);
                lemma_table_facts(t);
            }
            let col = t.lde_col(c);
            row.push(col[j]);
            c = c + 1;
        }
        proof {
            lemma_table_facts(t);
            assert forall|k: int| 0 <= k < crate::vm::NUM_COLS implies #[trigger] row@[k] == target[j as int][k] by {
                assert(t.lde(k) == lde_s(t.rows(), k, t.factor()));
            }
        }
        assert(row@ =~= target[j as int]);
        out.push(row);
        j = j + 1;
    }
    assert(mview(out@) =~= target);
    assert forall|m: int| 0 <= m < out@.len() implies (#[trigger] out@[m])@.len() == NUM_COLS by {
        assert(out@[m]@ == target[m]);
    }
    out
}

/// The digests of the rows of a matrix.
fn leaves(m: &Vec<Vec<u64>>) -> (r: Vec<Digest>)
    requires
        rows_wf(mview(m@)),
    ensures
        r@ == leaves_s(mview(m@)),
        digests_wf(r@),
{
    let mut out: Vec<Digest> = Vec::new();
    let mut i: usize = 0;
    while i < m.len()
        invariant
            i <= m@.len(),
            rows_wf(mview(m@)),
            out@.len() == i,
            forall|k: int| 0 <= k < i ==> #[trigger] out@[k] == leaves_s(mview(m@))[k],
            digests_wf(out@),
        decreases m@.len() - i,
    {
        assert(elems(mview(m@)[i as int]));
        out.push(leaf(&m[i]));
        i = i + 1;
    }
    assert(out@ =~= leaves_s(mview(m@)));
    out
}

/// A challenge drawn from a commitment.
fn challenge(d: Digest) -> (r: u64)
    requires
        d.wf(),
    ensures
        r as int == challenge_s(d),
        is_elem(r as int),
{
    permute(d).a
}

/// Each value as a row of its own.
fn singles(f: &Vec<u64>) -> (r: Vec<Vec<u64>>)
    requires
        elems(f@),
    ensures
        mview(r@) == singles_s(f@),
        rows_wf(mview(r@)),
{
    let mut out: Vec<Vec<u64>> = Vec::new();
    let mut j: usize = 0;
    while j < f.len()
        invariant
            j <= f@.len(),
            elems(f@),
            out@.len() == j,
            forall|k: int| 0 <= k < j ==> #[trigger] out@[k]@ == singles_s(f@)[k],
            forall|k: int| 0 <= k < j ==> elems(#[trigger] out@[k]@),
        decreases f@.len() - j,
    {
        let v = vec![f[j]];
        assert(v@ =~= singles_s(f@)[j as int]);
        out.push(v);
        j = j + 1;
    }
    assert(mview(out@) =~= singles_s(f@));
    out
}

/// One folding step with challenge `beta`, on a domain whose generator has inverse `ig`.
fn fold(f: &Vec<u64>, ig: u64, beta: u64) -> (r: Vec<u64>)
    requires
        elems(f@),
        is_elem(ig as int),
        is_elem(beta as int),
    ensures
        r@ == fold_s(f@, powers_s(ig as int, f@.len() / 2), beta as int),
        elems(r@),
{
    let len = f.len();
    let h = len / 2;
    let inv_x = powers(ig, h);
    let i2 = finv(2);
    let mut out: Vec<u64> = Vec::new();
    let mut j: usize = 0;
    while j < h
        invariant
            len == f@.len(),
            h == f@.len() / 2,
            j <= h,
            elems(f@),
            elems(inv_x@),
            inv_x@ == powers_s(ig as int, h as nat),
            is_elem(beta as int),
            i2 as int == inv_s(2),
            is_elem(i2 as int),
            out@.len() == j,
            forall|k: int| 0 <= k < j ==> #[trigger] out@[k] == fold_s(f@, inv_x@, beta as int)[k],
            elems(out@),
        decreases h - j,
    {
        let a = f[j];
        let b = f[j + h];
        let even = fmul(i2, fadd(a, b));
        let odd = fmul(i2, fmul(fsub(a, b), inv_x[j]));
        out.push(fadd(even, fmul(beta, odd)));
        j = j + 1;
    }
    assert(out@ =~= fold_s(f@, inv_x@, beta as int));
    out
}

} // verus!

verus! {

proof fn lemma_half_pow2(x: nat)
    requires
        is_pow2(x),
        x >= 2,
    ensures
        is_pow2(x / 2),
        x % 2 == 0,
{
}

/// Every layer of the folding protocol has a power-of-two length and holds
/// field elements; every layer but the last holds at least two values.
pub proof fn lemma_fri_facts(f: Seq<u64>, ig: int, stop: nat)
    requires
        is_pow2(f.len()),
        elems(f),
    ensures
        fri_s(f, ig, stop).len() >= 1,
        fri_s(f, ig, stop)[0] == f,
        forall|k: int| 0 <= k < fri_s(f, ig, stop).len() ==> is_pow2(#[trigger] fri_s(f, ig, stop)[k].len()),
        forall|k: int| 0 <= k < fri_s(f, ig, stop).len() ==> elems(#[trigger] fri_s(f, ig, stop)[k]),
        forall|k: int| 0 <= k < fri_s(f, ig, stop).len() - 1 ==> #[trigger] fri_s(f, ig, stop)[k].len() >= 2,
    decreases f.len(),
{
    if f.len() <= stop || f.len() < 2 {
    } else {
        let next = fold_s(f, powers_s(ig, f.len() / 2), challenge_s(commit_s(singles_s(f))));
        lemma_half_pow2(f.len());
        lemma_fri_facts(next, mul_s(ig, ig), stop);
        let rest = fri_s(next, mul_s(ig, ig), stop);
        let all = fri_s(f, ig, stop);
        assert(all == seq![f] + rest);
        assert forall|k: int| 0 <= k < all.len() implies is_pow2(#[trigger] all[k].len()) && elems(all[k]) by {
            if k > 0 {
                assert(all[k] == rest[k - 1]);
            }
        }
        assert forall|k: int| 0 <= k < all.len() - 1 implies #[trigger] all[k].len() >= 2 by {
            if k > 0 {
                assert(all[k] == rest[k - 1]);
            }
        }
    }
}

/// Runs the folding protocol from `f0`.
fn fri(f0: Vec<u64>, ig0: u64, stop: usize) -> (r: Vec<Vec<u64>>)
    requires
        elems(f0@),
        is_elem(ig0 as int),
    ensures
        mview(r@) == fri_s(f0@, ig0 as int, stop as nat),
{
    let ghost target = fri_s(f0@, ig0 as int, stop as nat);
    let mut layers: Vec<Vec<u64>> = Vec::new();
    let mut cur = f0;
    let mut ig = ig0;
    while cur.len() > stop && cur.len() >= 2
        invariant
            elems(cur@),
            is_elem(ig as int),
            mview(layers@) + fri_s(cur@, ig as int, stop as nat) == target,
        decreases cur@.len(),
    {
        let s = singles(&cur);
        let lv = leaves(&s);
        let beta = challenge(root(&lv));
        let next = fold(&cur, ig, beta);
        let ig2 = fmul(ig, ig);
        let ghost c = cur@;
        let ghost before = mview(layers@);
        proof {
            assert(fri_s(c, ig as int, stop as nat) == seq![c] + fri_s(next@, ig2 as int, stop as nat));
        }
        layers.push(cur);
        proof {
            assert(mview(layers@) =~= before.push(c));
            assert(before + (seq![c] + fri_s(next@, ig2 as int, stop as nat)) =~= before.push(c) + fri_s(
                next@,
                ig2 as int,
                stop as nat,
            ));
        }
        cur = next;
        ig = ig2;
    }
    let ghost c = cur@;
    let ghost before = mview(layers@);
    layers.push(cur);
    proof {
        assert(fri_s(c, ig as int, stop as nat) == seq![c]);
        assert(mview(layers@) =~= before.push(c));
        assert(before + seq![c] =~= before.push(c));
    }
    layers
}

/// Opens row `i` of a committed matrix whose row digests are `lv`.
fn open(m: &Vec<Vec<u64>>, lv: &Vec<Digest>, i: usize) -> (r: Opening)
    requires
        lv@ == leaves_s(mview(m@)),
        digests_wf(lv@),
        i < m@.len(),
        is_pow2(m@.len() as nat),
    ensures
        r@ == open_s(mview(m@), i as nat),
{
    let p = path(lv, i);
    Opening { index: i, values: m[i].clone(), path: p }
}

} // verus!

verus! {

/// The commitments of the folding layers that are committed: each layer
/// but the last, as a matrix of single values, with its row digests.
pub open spec fn layer_sets_ok(layers: Seq<Seq<u64>>, sets: Seq<Vec<Vec<u64>>>, lvs: Seq<Vec<Digest>>) -> bool {
    &&& layers.len() >= 1
    &&& sets.len() == layers.len() - 1
    &&& lvs.len() == layers.len() - 1
    &&& forall|k: int| 0 <= k < layers.len() ==> is_pow2(#[trigger] layers[k].len())
    &&& forall|k: int| 0 <= k < sets.len() ==> #[trigger] layers[k].len() >= 2
    &&& forall|k: int| 0 <= k < sets.len() ==> #[trigger] mview(sets[k]@) == singles_s(layers[k])
    &&& forall|k: int| 0 <= k < sets.len() ==> #[trigger] lvs[k]@ == leaves_s(singles_s(layers[k]))
    &&& forall|k: int| 0 <= k < sets.len() ==> digests_wf(#[trigger] lvs[k]@)
}

/// The openings at position `p`.
fn query(
    rows: &Vec<Vec<u64>>,
    rows_lv: &Vec<Digest>,
    layers: &Vec<Vec<u64>>,
    sets: &Vec<Vec<Vec<u64>>>,
    lvs: &Vec<Vec<Digest>>,
    p: usize,
) -> (r: QueryProof)
    requires
        rows_lv@ == leaves_s(mview(rows@)),
        digests_wf(rows_lv@),
        is_pow2(rows@.len() as nat),
        p < rows@.len(),
        layer_sets_ok(mview(layers@), sets@, lvs@),
    ensures
        r@ == query_s(mview(rows@), mview(layers@), p as nat),
{
    let trace = open(rows, rows_lv, p);
    let ghost target = query_s(mview(rows@), mview(layers@), p as nat).layers;
    let mut out: Vec<Opening> = Vec::new();
    let mut l: usize = 0;
    while l < sets.len()
        invariant
            l <= sets@.len(),
            layer_sets_ok(mview(layers@), sets@, lvs@),
            target == query_s(mview(rows@), mview(layers@), p as nat).layers,
            target.len() == 2 * sets@.len(),
            out@.len() == 2 * l,
            forall|j: int| 0 <= j < 2 * l ==> #[trigger] out@[j]@ == target[j],
        decreases sets@.len() - l,
    {
        assert(mview(layers@)[l as int] == layers@[l as int]@);
        let h = layers[l].len() / 2;
        let i = p % h;
        assert(mview(sets@[l as int]@).len() == layers@[l as int]@.len());
        let lo = open(&sets[l], &lvs[l], i);
        let hi = open(&sets[l], &lvs[l], i + h);
        assert((2 * l as int) / 2 == l && (2 * l as int) % 2 == 0);
        assert((2 * l as int + 1) / 2 == l && (2 * l as int + 1) % 2 == 1);
        assert(lo@ == target[2 * l as int]);
        assert(hi@ == target[2 * l as int + 1]);
        out.push(lo);
        out.push(hi);
        l = l + 1;
    }
    let r = QueryProof { trace, layers: out };
    assert(r@.layers =~= target);
    r
}

/// The commitments to each layer of the folding protocol but the last.
fn commit_layers(layers: &Vec<Vec<u64>>) -> (r: (Vec<Vec<Vec<u64>>>, Vec<Vec<Digest>>, Vec<Digest>))
    requires
        mview(layers@).len() >= 1,
        forall|k: int| 0 <= k < layers@.len() ==> is_pow2(#[trigger] mview(layers@)[k].len()),
        forall|k: int| 0 <= k < layers@.len() ==> elems(#[trigger] mview(layers@)[k]),
        forall|k: int| 0 <= k < layers@.len() - 1 ==> #[trigger] mview(layers@)[k].len() >= 2,
    ensures
        layer_sets_ok(mview(layers@), r.0@, r.1@),
        r.2@ == Seq::new((layers@.len() - 1) as nat, |k: int| commit_s(singles_s(mview(layers@)[k]))),
        digests_wf(r.2@),
{
    let ghost ls = mview(layers@);
    let count = layers.len() - 1;
    let mut sets: Vec<Vec<Vec<u64>>> = Vec::new();
    let mut lvs: Vec<Vec<Digest>> = Vec::new();
    let mut roots: Vec<Digest> = Vec::new();
    let mut k: usize = 0;
    while k < count
        invariant
            ls == mview(layers@),
            count == layers@.len() - 1,
            k <= count,
            forall|j: int| 0 <= j < layers@.len() ==> is_pow2(#[trigger] ls[j].len()),
            forall|j: int| 0 <= j < layers@.len() ==> elems(#[trigger] ls[j]),
            forall|j: int| 0 <= j < layers@.len() - 1 ==> #[trigger] ls[j].len() >= 2,
            sets@.len() == k,
            lvs@.len() == k,
            roots@.len() == k,
            forall|j: int| 0 <= j < k ==> #[trigger] mview(sets@[j]@) == singles_s(ls[j]),
            forall|j: int| 0 <= j < k ==> #[trigger] lvs@[j]@ == leaves_s(singles_s(ls[j])),
            forall|j: int| 0 <= j < k ==> digests_wf(#[trigger] lvs@[j]@),
            forall|j: int| 0 <= j < k ==> #[trigger] roots@[j] == commit_s(singles_s(ls[j])),
            digests_wf(roots@),
        decreases count - k,
    {
        assert(elems(ls[k as int]));
        let s = singles(&layers[k]);
        let lv = leaves(&s);
        let rt = root(&lv);
        sets.push(s);
        lvs.push(lv);
        roots.push(rt);
        k = k + 1;
    }
    assert(roots@ =~= Seq::new((layers@.len() - 1) as nat, |k: int| commit_s(singles_s(mview(layers@)[k]))));
    (sets, lvs, roots)
}

} // verus!

verus! {

/// Whether every residual is zero.
pub fn is_zero(v: &Vec<u64>) -> (r: bool)
    ensures
        r == all_zero(v@),
{
    let mut j: usize = 0;
    while j < v.len()
        invariant
            j <= v@.len(),
            forall|k: int| 0 <= k < j ==> #[trigger] v@[k] == 0,
        decreases v@.len() - j,
    {
        if v[j] != 0 {
            return false;
        }
        j = j + 1;
    }
    true
}

/// Evaluates every constraint on the raw trace of `t`.
pub fn check_constraints(t: &TraceTable, inputs: &[u64], outputs: &Vec<u64>) -> (r: bool)
    requires
        t.wf(),
        inputs_ok(inputs@),
        outputs@.len() <= NUM_COLS,
        elems(outputs@),
    ensures
        r == constraints_hold_s(t.rows(), t.program(), inputs@, outputs@),
{
    proof {
        lemma_table_facts(t);
    }
    let n = t.len();
    let first = first_residuals(t.row(0), inputs);
    if !is_zero(&first) {
        return false;
    }
    let program = t.program_words();
    let mut i: usize = 0;
    while i + 1 < n
        invariant
            t.wf(),
            n == t.rows().len(),
            n >= 1,
            i < n,
            program@ == t.program(),
            program@.len() == n,
            forall|k: int| 0 <= k < n ==> crate::vm::row_wf(#[trigger] t.rows()[k]),
            forall|k: int|
                0 <= k < i ==> all_zero(
                    #[trigger] crate::constraints::transition_residuals_s(t.rows()[k], t.rows()[k + 1], t.program()[k]),
                ),
        decreases n - i,
    {
        let res = transition_residuals(t.row(i), t.row(i + 1), program[i]);
        if !is_zero(&res) {
            return false;
        }
        i = i + 1;
    }
    let last = last_residuals(t.row(n - 1), outputs);
    is_zero(&last)
}

/// Checks every constraint on the trace of `t`, then commits to its
/// extension and runs the folding protocol on the composition of the
/// constraint relations over the extended domain. Fails, with no artifact,
/// where any constraint is violated on the trace.
pub fn prove(t: &TraceTable, inputs: &[u64], outputs: &Vec<u64>) -> (r: Result<ProofArtifact, ExecError>)
    requires
        t.wf(),
        inputs_ok(inputs@),
        outputs@.len() <= NUM_COLS,
        elems(outputs@),
    ensures
        match r {
            Ok(p) => constraints_hold_s(t.rows(), t.program(), inputs@, outputs@) && p@ == proof_s(t.rows(), t.program(), t.factor(), inputs@, outputs@),
            Err(e) => e == ExecError::ConstraintViolation && !constraints_hold_s(
                t.rows(),
                t.program(),
                inputs@,
                outputs@,
            ),
        },
{
    if !check_constraints(t, inputs, outputs) {
        return Err(ExecError::ConstraintViolation);
    }
    proof {
        lemma_table_facts(t);
    }
    let rows = ext_rows(t);
    let rows_lv = leaves(&rows);
    let trace_root = root(&rows_lv);
    let alpha = challenge(trace_root);
    let ins = ins_ext_rows(t);
    let comp = composition(&rows, &ins, t.extension_factor(), alpha, inputs, outputs);
    let n = rows.len();
    let ig = finv(root_of_unity(n as u64));
    let ghost comp_s = comp@;
    proof {
        lemma_fri_facts(comp_s, ig as int, t.factor());
    }
    let layers = fri(comp, ig, t.extension_factor());
    let (sets, lvs, roots) = commit_layers(&layers);
    let last_root = if roots.len() == 0 {
        trace_root
    } else {
        roots[roots.len() - 1]
    };
    let remainder = layers[layers.len() - 1].clone();
    assert(elems(mview(layers@)[layers@.len() - 1]));
    let seed = absorb_all(last_root, &remainder);
    let ghost ls = mview(layers@);
    let ghost target = proof_s(t.rows(), t.program(), t.factor(), inputs@, outputs@);
    assert(roots@ == Seq::new((ls.len() - 1) as nat, |k: int| commit_s(singles_s(ls[k]))));
    assert(seed == absorb_all_s(
        if roots@.len() == 0 { commit_s(ext_rows_s(t.rows(), t.factor())) } else { roots@.last() },
        ls.last(),
    ));
    let mut queries: Vec<QueryProof> = Vec::new();
    let mut q: usize = 0;
    while q < NUM_QUERIES
        invariant
            q <= NUM_QUERIES,
            n == rows@.len(),
            n >= 4,
            n <= crate::trace::MAX_TRACE_LEN * crate::trace::MAX_EXTENSION_FACTOR,
            is_pow2(n as nat),
            rows_lv@ == leaves_s(mview(rows@)),
            digests_wf(rows_lv@),
            layer_sets_ok(ls, sets@, lvs@),
            ls == mview(layers@),
            seed.wf(),
            target == proof_s(t.rows(), t.program(), t.factor(), inputs@, outputs@),
            mview(rows@) == ext_rows_s(t.rows(), t.factor()),
            ls == fri_s(
                composition_s(
                    ext_rows_s(t.rows(), t.factor()),
                    ins_ext_rows_s(t.program(), t.factor()),
                    t.factor(),
                    challenge_s(commit_s(ext_rows_s(t.rows(), t.factor()))),
                    inputs@,
                    outputs@,
                ),
                inv_s(unity_root_s(n as nat)),
                t.factor(),
            ),
            seed == absorb_all_s(
                if roots@.len() == 0 { commit_s(ext_rows_s(t.rows(), t.factor())) } else { roots@.last() },
                ls.last(),
            ),
            roots@ == Seq::new((ls.len() - 1) as nat, |k: int| commit_s(singles_s(ls[k]))),
            ls.len() >= 1,
            queries@.len() == q,
            forall|k: int| 0 <= k < q ==> #[trigger] queries@[k]@ == target.queries[k],
        decreases NUM_QUERIES - q,
    {
        let d = absorb(seed, (q + 1) as u64);
        let pos = (d.a % (n as u64)) as usize;
        assert(pos as nat == position_s(seed, q as nat, n as nat));
        let qp = query(&rows, &rows_lv, &layers, &sets, &lvs, pos);
        assert(qp@ == query_s(ext_rows_s(t.rows(), t.factor()), ls, pos as nat));
        assert(target.queries[q as int] == query_s(ext_rows_s(t.rows(), t.factor()), ls, position_s(seed, q as nat, n as nat)));
        queries.push(qp);
        q = q + 1;
    }
    let last_row = t.row(t.len() - 1);
    let program_hash = [last_row[9], last_row[10], last_row[11], last_row[12]];
    let p = ProofArtifact {
        trace_root,
        layer_roots: roots,
        remainder,
        queries,
        outputs: outputs.clone(),
        program_hash,
    };
    proof {
        assert(p@.queries =~= target.queries);
        assert(p@.program_hash =~= target.program_hash);
    }
    Ok(p)
}

} // verus!

verus! {

/// The instruction columns of a program, each extended onto the extended domain, by rows.
fn ins_ext_rows(t: &TraceTable) -> (r: Vec<Vec<u64>>)
    requires
        t.wf(),
    ensures
        mview(r@) == ins_ext_rows_s(t.program(), t.factor()),
        rows_wf(mview(r@)),
        r@.len() == t.rows().len() * t.factor(),
        forall|j: int| 0 <= j < r@.len() ==> (#[trigger] r@[j])@.len() == NUM_INS,
{
    proof {
        lemma_table_facts(t);
    }
    let program = t.program_words();
    let n = program.len();
    let f = t.extension_factor();
    let total = t.lde_len();
    let g = root_of_unity(total as u64);
    let ext = powers(g, total);
    let inv = powers(finv(fpow(g, f as u64)), n);
    let ghost cols_s = Seq::new(
        NUM_INS as nat,
        |k: int| eval_all_s(interpolate_s(ins_column_s(program@, k), inv_points_s(n as nat, f as nat)), ext_points_s(n as nat, f as nat)),
    );
    let mut cols: Vec<Vec<u64>> = Vec::new();
    let mut k: usize = 0;
    while k < NUM_INS
        invariant
            cols_s == Seq::new(
                NUM_INS as nat,
                |k: int| eval_all_s(interpolate_s(ins_column_s(program@, k), inv_points_s(n as nat, f as nat)), ext_points_s(n as nat, f as nat)),
            ),
            k <= NUM_INS,
            n == program@.len(),
            n < crate::field::MODULUS,
            total == n * f,
            ext@ == ext_points_s(n as nat, f as nat),
            inv@ == inv_points_s(n as nat, f as nat),
            elems(ext@),
            elems(inv@),
            cols@.len() == k,
            forall|c: int| 0 <= c < k ==> #[trigger] cols@[c]@ == cols_s[c],
            forall|c: int| 0 <= c < k ==> elems(#[trigger] cols@[c]@),
        decreases NUM_INS - k,
    {
        let mut col: Vec<u64> = Vec::new();
        let mut i: usize = 0;
        while i < n
            invariant
                i <= n,
                n == program@.len(),
                k < NUM_INS,
                col@.len() == i,
                forall|m: int| 0 <= m < i ==> #[trigger] col@[m] == ins_column_s(program@, k as int)[m],
                elems(col@),
            decreases n - i,
        {
            let row = ins_row(program[i]);
            col.push(row[k]);
            i = i + 1;
        }
        assert(col@ =~= ins_column_s(program@, k as int));
        let c = interpolate(&col, &inv);
        let e = eval_all(&c, &ext);
        cols.push(e);
        k = k + 1;
    }
    assert forall|c: int| 0 <= c < NUM_INS implies (#[trigger] cols_s[c]).len() == total by {}
    assert forall|c: int| 0 <= c < NUM_INS implies (#[trigger] cols_s[c]).len() == total by {}
    let mut out: Vec<Vec<u64>> = Vec::new();
    let mut j: usize = 0;
    while j < total
        invariant
            cols_s == Seq::new(
                NUM_INS as nat,
                |k: int| eval_all_s(interpolate_s(ins_column_s(program@, k), inv_points_s(n as nat, f as nat)), ext_points_s(n as nat, f as nat)),
            ),
            n == program@.len(),
            j <= total,
            total == n * f,
            cols@.len() == NUM_INS,
            forall|c: int| 0 <= c < NUM_INS ==> #[trigger] cols@[c]@ == cols_s[c],
            forall|c: int| 0 <= c < NUM_INS ==> elems(#[trigger] cols@[c]@),
            forall|c: int| 0 <= c < NUM_INS ==> (#[trigger] cols_s[c]).len() == total,
            out@.len() == j,
            forall|m: int| 0 <= m < j ==> #[trigger] out@[m]@ == ins_ext_rows_s(program@, f as nat)[m],
            forall|m: int| 0 <= m < j ==> elems(#[trigger] out@[m]@),
        decreases total - j,
    {
        let mut row: Vec<u64> = Vec::new();
        let mut c: usize = 0;
        while c < NUM_INS
            invariant
                c <= NUM_INS,
                j < total,
                cols@.len() == NUM_INS,
                forall|c2: int| 0 <= c2 < NUM_INS ==> elems(#[trigger] cols@[c2]@),
                forall|c2: int| 0 <= c2 < NUM_INS ==> #[trigger] cols@[c2]@ == cols_s[c2],
                forall|c2: int| 0 <= c2 < NUM_INS ==> (#[trigger] cols_s[c2]).len() == total,
                row@.len() == c,
                forall|m: int| 0 <= m < c ==> #[trigger] row@[m] == cols_s[m][j as int],
                elems(row@),
            decreases NUM_INS - c,
        {
            assert(cols@[c as int]@.len() == total);
            row.push(cols[c][j]);
            c = c + 1;
        }
        assert(row@ =~= ins_ext_rows_s(program@, f as nat)[j as int]) by {
            assert(ins_ext_rows_s(program@, f as nat)[j as int] =~= Seq::new(NUM_INS as nat, |k: int| cols_s[k][j as int]));
        }
        out.push(row);
        j = j + 1;
    }
    assert(mview(out@) =~= ins_ext_rows_s(program@, f as nat));
    assert forall|m: int| 0 <= m < out@.len() implies (#[trigger] out@[m])@.len() == NUM_INS by {
        assert(out@[m]@ == ins_ext_rows_s(program@, f as nat)[m]);
    }
    out
}

/// The composition of the constraint values at every extended point.
fn composition(
    rows: &Vec<Vec<u64>>,
    ins: &Vec<Vec<u64>>,
    f: usize,
    alpha: u64,
    inputs: &[u64],
    outputs: &Vec<u64>,
) -> (r: Vec<u64>)
    requires
        rows_wf(mview(rows@)),
        forall|j: int| 0 <= j < rows@.len() ==> (#[trigger] rows@[j])@.len() == NUM_COLS,
        rows_wf(mview(ins@)),
        ins@.len() == rows@.len(),
        forall|j: int| 0 <= j < ins@.len() ==> (#[trigger] ins@[j])@.len() == NUM_INS,
        is_elem(alpha as int),
        inputs_ok(inputs@),
        outputs@.len() <= NUM_COLS,
        elems(outputs@),
    ensures
        r@ == composition_s(mview(rows@), mview(ins@), f as nat, alpha as int, inputs@, outputs@),
        elems(r@),
{
    let n = rows.len();
    let mut out: Vec<u64> = Vec::new();
    let mut j: usize = 0;
    while j < n
        invariant
            j <= n,
            n == rows@.len(),
            rows_wf(mview(rows@)),
            forall|m: int| 0 <= m < rows@.len() ==> (#[trigger] rows@[m])@.len() == NUM_COLS,
            rows_wf(mview(ins@)),
            ins@.len() == rows@.len(),
            forall|m: int| 0 <= m < ins@.len() ==> (#[trigger] ins@[m])@.len() == NUM_INS,
            is_elem(alpha as int),
            inputs_ok(inputs@),
            outputs@.len() <= NUM_COLS,
            elems(outputs@),
            out@.len() == j,
            forall|m: int| 0 <= m < j ==> #[trigger] out@[m] == composition_s(mview(rows@), mview(ins@), f as nat, alpha as int, inputs@, outputs@)[m],
            elems(out@),
        decreases n - j,
    {
        let jn = ((j as u128 + f as u128) % (n as u128)) as usize;
        assert(elems(mview(rows@)[j as int]));
        assert(elems(mview(rows@)[jn as int]));
        assert(elems(mview(ins@)[j as int]));
        let vals = constraint_values(&rows[j], &rows[jn], &ins[j], inputs, outputs);
        let y = eval(&vals, alpha);
        proof {
            crate::poly::lemma_eval_elem(vals@, alpha as int);
        }
        out.push(y);
        j = j + 1;
    }
    assert(out@ =~= composition_s(mview(rows@), mview(ins@), f as nat, alpha as int, inputs@, outputs@));
    out
}

} // verus!
