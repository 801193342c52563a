//! Polynomials over the field: evaluation, interpolation on a multiplicative
//! subgroup, and the low-degree extension of a column onto a larger domain.
use vstd::prelude::*;
use crate::field::{fadd, fmul, fpow, finv, is_elem, add_s, mul_s, pow_s, inv_s, modulus, MODULUS, GENERATOR};

verus! {

pub open spec fn elems(s: Seq<u64>) -> bool {
    forall|i: int| 0 <= i < s.len() ==> is_elem(#[trigger] s[i] as int)
}

/// The value at `x` of the polynomial with coefficients `c` (constant first).
pub open spec fn eval_s(c: Seq<u64>, x: int) -> int
    decreases c.len(),
{
    if c.len() == 0 {
        0
    } else {
        add_s(c[0] as int, mul_s(x, eval_s(c.skip(1), x)))
    }
}

/// `g` raised to `i`, by repeated multiplication.
pub open spec fn power_s(g: int, i: nat) -> int
    decreases i,
{
    if i == 0 {
        1
    } else {
        mul_s(power_s(g, (i - 1) as nat), g)
    }
}

/// The first `n` powers of `g`.
pub open spec fn powers_s(g: int, n: nat) -> Seq<u64> {
    Seq::new(n, |i: int| power_s(g, i as nat) as u64)
}

/// A root of unity whose order is `n` where `n` is a power of two dividing
/// the order of the multiplicative group.
pub open spec fn root_s(n: nat) -> int {
    pow_s(GENERATOR as int, ((modulus() - 1) / (n as int)) as nat)
}

/// Coefficients of the polynomial through `vals` on the subgroup whose
/// inverse points are `inv_points`: the inverse discrete Fourier transform.
pub open spec fn interpolate_s(vals: Seq<u64>, inv_points: Seq<u64>) -> Seq<u64> {
    let n_inv = inv_s(vals.len() as int);
    Seq::new(vals.len(), |k: int| mul_s(n_inv, eval_s(vals, inv_points[k] as int)) as u64)
}

/// The polynomial `c` evaluated at every point of `points`.
pub open spec fn eval_all_s(c: Seq<u64>, points: Seq<u64>) -> Seq<u64> {
    Seq::new(points.len(), |j: int| eval_s(c, points[j] as int) as u64)
}

pub proof fn lemma_eval_elem(c: Seq<u64>, x: int)
    ensures
        is_elem(eval_s(c, x)),
    decreases c.len(),
{
    if c.len() > 0 {
        lemma_eval_elem(c.skip(1), x);
    }
}

/// Evaluates a polynomial by Horner's rule.
pub fn eval(c: &Vec<u64>, x: u64) -> (r: u64)
    requires
        elems(c@),
        is_elem(x as int),
    ensures
        r as int == eval_s(c@, x as int),
{
    let mut acc: u64 = 0;
    let mut k: usize = c.len();
    assert(c@.skip(c@.len() as int) =~= Seq::<u64>::empty());
    while k > 0
        invariant
            k <= c@.len(),
            elems(c@),
            is_elem(x as int),
            acc as int == eval_s(c@.skip(k as int), x as int),
        decreases k,
    {
        assert(c@.skip(k as int - 1).skip(1) =~= c@.skip(k as int));
        proof {
            lemma_eval_elem(c@.skip(k as int), x as int);
        }
        acc = fadd(c[k - 1], fmul(x, acc));
        k = k - 1;
    }
    assert(c@.skip(0) =~= c@);
    acc
}

/// The first `n` powers of `g`.
pub fn powers(g: u64, n: usize) -> (r: Vec<u64>)
    requires
        is_elem(g as int),
    ensures
        r@ == powers_s(g as int, n as nat),
        elems(r@),
{
    let mut out: Vec<u64> = Vec::new();
    let mut cur: u64 = 1;
    let mut i: usize = 0;
    while i < n
        invariant
            i <= n,
            is_elem(g as int),
            out@.len() == i,
            cur as int == power_s(g as int, i as nat),
            is_elem(cur as int),
            forall|j: int| 0 <= j < i ==> #[trigger] out@[j] == powers_s(g as int, n as nat)[j],
            elems(out@),
        decreases n - i,
    {
        out.push(cur);
        cur = fmul(cur, g);
        i = i + 1;
    }
    assert(out@ =~= powers_s(g as int, n as nat));
    out
}

/// A root of unity of order `n`, for `n` a power of two no larger than the
/// two-adic part of the multiplicative group.
pub fn root_of_unity(n: u64) -> (r: u64)
    requires
        n >= 1,
    ensures
        r as int == root_s(n as nat),
        is_elem(r as int),
{
    fpow(GENERATOR, (MODULUS - 1) / n)
}

/// Interpolates `vals` on a subgroup given by its inverse points.
pub fn interpolate(vals: &Vec<u64>, inv_points: &Vec<u64>) -> (r: Vec<u64>)
    requires
        elems(vals@),
        elems(inv_points@),
        inv_points@.len() == vals@.len(),
        vals@.len() < MODULUS,
    ensures
        r@ == interpolate_s(vals@, inv_points@),
        elems(r@),
{
    let n_inv = finv(vals.len() as u64);
    let mut out: Vec<u64> = Vec::new();
    let mut k: usize = 0;
    while k < vals.len()
        invariant
            k <= vals@.len(),
            elems(vals@),
            elems(inv_points@),
            inv_points@.len() == vals@.len(),
            n_inv as int == inv_s(vals@.len() as int),
            is_elem(n_inv as int),
            out@.len() == k,
            forall|j: int| 0 <= j < k ==> #[trigger] out@[j] == interpolate_s(vals@, inv_points@)[j],
            elems(out@),
        decreases vals@.len() - k,
    {
        let y = eval(vals, inv_points[k]);
        proof {
            lemma_eval_elem(vals@, inv_points@[k as int] as int);
        }
        out.push(fmul(n_inv, y));
        k = k + 1;
    }
    assert(out@ =~= interpolate_s(vals@, inv_points@));
    out
}

/// Evaluates a polynomial at every point of `points`.
pub fn eval_all(c: &Vec<u64>, points: &Vec<u64>) -> (r: Vec<u64>)
    requires
        elems(c@),
        elems(points@),
    ensures
        r@ == eval_all_s(c@, points@),
        elems(r@),
{
    let mut out: Vec<u64> = Vec::new();
    let mut j: usize = 0;
    while j < points.len()
        invariant
            j <= points@.len(),
            elems(c@),
            elems(points@),
            out@.len() == j,
            forall|k: int| 0 <= k < j ==> #[trigger] out@[k] == eval_all_s(c@, points@)[k],
            elems(out@),
        decreases points@.len() - j,
    {
        let y = eval(c, points[j]);
        proof {
            lemma_eval_elem(c@, points@[j as int] as int);
        }
        out.push(y);
        j = j + 1;
    }
    assert(out@ =~= eval_all_s(c@, points@));
    out
}

/// The polynomial `c` takes the value `col[i]` at the `i * f`-th point.
pub open spec fn reproduces_at(c: Seq<u64>, points: Seq<u64>, col: Seq<u64>, f: nat, i: int) -> bool {
    eval_s(c, points[i * f] as int) == col[i] as int
}

/// The low-degree extension of `col` onto `ext_points`, where the trace
/// domain is every `factor`-th extended point: the interpolant evaluated on
/// the extended domain. `None` exactly where the interpolant fails to
/// reproduce the column on the trace domain; otherwise the extension
/// agrees with the column there.
pub fn extend(col: &Vec<u64>, inv_points: &Vec<u64>, ext_points: &Vec<u64>, factor: usize) -> (r: Option<Vec<u64>>)
    requires
        elems(col@),
        elems(inv_points@),
        elems(ext_points@),
        inv_points@.len() == col@.len(),
        col@.len() < MODULUS,
        factor >= 1,
        ext_points@.len() == col@.len() * factor,
    ensures
        match r {
            Some(e) => {
                &&& e@ == eval_all_s(interpolate_s(col@, inv_points@), ext_points@)
                &&& forall|i: int| 0 <= i < col@.len() ==> #[trigger] e@[i * factor] == col@[i]
            },
            None => exists|i: int| 0 <= i < col@.len()
                && !#[trigger] reproduces_at(interpolate_s(col@, inv_points@), ext_points@, col@, factor as nat, i),
        },
{
    let c = interpolate(col, inv_points);
    let e = eval_all(&c, ext_points);
    let total = ext_points.len();
    let mut i: usize = 0;
    while i < col.len()
        invariant
            total == ext_points@.len(),
            e@.len() == total,
            i <= col@.len(),
            factor >= 1,
            ext_points@.len() == col@.len() * factor,
            e@ == eval_all_s(c@, ext_points@),
            c@ == interpolate_s(col@, inv_points@),
            forall|k: int| 0 <= k < i ==> #[trigger] e@[k * factor] == col@[k],
        decreases col@.len() - i,
    {
        proof {
            assert(i * factor < col@.len() * factor) by (nonlinear_arith)
                requires
                    i < col@.len(),
                    factor >= 1,
            ;
        }
        if e[i * factor] != col[i] {
            assert(!reproduces_at(c@, ext_points@, col@, factor as nat, i as int));
            return None;
        }
        i = i + 1;
    }
    Some(e)
}

} // verus!
