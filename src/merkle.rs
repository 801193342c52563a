//! Vector commitments: a binary Merkle tree over digests, its root and the
//! authentication path of a leaf.
use vstd::prelude::*;
use crate::hash::{Digest, merge, merge_s, absorb_all, absorb_all_s};
use crate::poly::elems;

verus! {

pub open spec fn digests_wf(l: Seq<Digest>) -> bool {
    forall|i: int| 0 <= i < l.len() ==> (#[trigger] l[i]).wf()
}

/// The digest of a leaf holding `values`.
pub open spec fn leaf_s(values: Seq<u64>) -> Digest {
    absorb_all_s(Digest::zero_s(), values)
}

/// The layer above `l`: each adjacent pair merged.
pub open spec fn parent_layer_s(l: Seq<Digest>) -> Seq<Digest> {
    Seq::new(l.len() / 2, |i: int| merge_s(l[2 * i], l[2 * i + 1]))
}

/// The root of the tree whose leaves are `l`.
pub open spec fn root_s(l: Seq<Digest>) -> Digest
    decreases l.len(),
{
    if l.len() <= 1 {
        if l.len() == 1 { l[0] } else { Digest::zero_s() }
    } else {
        root_s(parent_layer_s(l))
    }
}

/// The siblings along the path from leaf `i` to the root, lowest first.
pub open spec fn path_s(l: Seq<Digest>, i: nat) -> Seq<Digest>
    decreases l.len(),
{
    if l.len() <= 1 {
        Seq::empty()
    } else {
        let sib: int = if i % 2 == 0 { i as int + 1 } else { i as int - 1 };
        seq![l[sib]].add(path_s(parent_layer_s(l), i / 2))
    }
}

pub fn leaf(values: &Vec<u64>) -> (r: Digest)
    requires
        elems(values@),
    ensures
        r == leaf_s(values@),
        r.wf(),
{
    absorb_all(Digest::zero(), values)
}

pub fn parent_layer(l: &Vec<Digest>) -> (r: Vec<Digest>)
    requires
        digests_wf(l@),
    ensures
        r@ == parent_layer_s(l@),
        digests_wf(r@),
{
    let len = l.len();
    let half = len / 2;
    let mut out: Vec<Digest> = Vec::new();
    let mut i: usize = 0;
    while i < half
        invariant
            len == l@.len(),
            half == l@.len() / 2,
            i <= half,
            digests_wf(l@),
            out@.len() == i,
            forall|k: int| 0 <= k < i ==> #[trigger] out@[k] == parent_layer_s(l@)[k],
            digests_wf(out@),
        decreases half - i,
    {
        assert(2 * i + 1 < l@.len());
        out.push(merge(l[2 * i], l[2 * i + 1]));
        i = i + 1;
    }
    assert(out@ =~= parent_layer_s(l@));
    out
}

/// The root of the tree over `l`.
pub fn root(l: &Vec<Digest>) -> (r: Digest)
    requires
        digests_wf(l@),
    ensures
        r == root_s(l@),
        r.wf(),
    decreases l@.len(),
{
    if l.len() == 0 {
        Digest::zero()
    } else if l.len() == 1 {
        l[0]
    } else {
        let p = parent_layer(l);
        root(&p)
    }
}

/// The authentication path of leaf `i`.
pub fn path(l: &Vec<Digest>, i: usize) -> (r: Vec<Digest>)
    requires
        digests_wf(l@),
        i < l@.len(),
        l@.len() % 2 == 0 || l@.len() == 1,
        crate::trace::is_pow2(l@.len() as nat),
    ensures
        r@ == path_s(l@, i as nat),
    decreases l@.len(),
{
    if l.len() <= 1 {
        Vec::new()
    } else {
        let sib = if i % 2 == 0 { i + 1 } else { i - 1 };
        let p = parent_layer(l);
        proof {
            assert(crate::trace::is_pow2(p@.len() as nat));
            assert(p@.len() == 1 || (p@.len() >= 2 && p@.len() % 2 == 0));
        }
        let rest = path(&p, i / 2);
        let mut out: Vec<Digest> = Vec::new();
        out.push(l[sib]);
        let mut k: usize = 0;
        while k < rest.len()
            invariant
                k <= rest@.len(),
                out@ == seq![l@[sib as int]].add(rest@.take(k as int)),
            decreases rest@.len() - k,
        {
            out.push(rest[k]);
            k = k + 1;
            assert(out@ =~= seq![l@[sib as int]].add(rest@.take(k as int)));
        }
        assert(rest@.take(rest@.len() as int) =~= rest@);
        out
    }
}

} // verus!
