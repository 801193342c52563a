//! An algebraic sponge over the field: a four-lane permutation, used for
//! commitments and for drawing challenges from them.
use vstd::prelude::*;
use crate::field::{fadd, fpow, is_elem, add_s, pow_s};

verus! {

/// Number of rounds of the permutation.
pub const ROUNDS: u64 = 8;

/// Four field elements: the sponge state, and the size of every commitment.
#[derive(Clone, Copy, PartialEq, Eq, Structural, Debug)]
pub struct Digest {
    pub a: u64,
    pub b: u64,
    pub c: u64,
    pub d: u64,
}

impl Digest {
    pub open spec fn wf(self) -> bool {
        is_elem(self.a as int) && is_elem(self.b as int) && is_elem(self.c as int) && is_elem(
            self.d as int,
        )
    }

    /// The all-zero state.
    pub fn zero() -> (r: Digest)
        ensures
            r == Digest::zero_s(),
            r.wf(),
    {
        Digest { a: 0, b: 0, c: 0, d: 0 }
    }

    pub open spec fn zero_s() -> Digest {
        Digest { a: 0, b: 0, c: 0, d: 0 }
    }
}

/// One round: a lane-dependent constant on every lane, the power map `x^7` on
/// the first lane, then each lane replaced by itself plus the sum of all lanes.
pub open spec fn round_s(s: Digest, r: nat) -> Digest {
    let k: int = 4 * (r as int) + 1;
    let x0 = pow_s(add_s(s.a as int, k), 7);
    let x1 = add_s(s.b as int, k + 1);
    let x2 = add_s(s.c as int, k + 2);
    let x3 = add_s(s.d as int, k + 3);
    let t = add_s(add_s(x0, x1), add_s(x2, x3));
    Digest {
        a: add_s(t, x0) as u64,
        b: add_s(t, x1) as u64,
        c: add_s(t, x2) as u64,
        d: add_s(t, x3) as u64,
    }
}

/// The first `n` rounds of the permutation.
pub open spec fn rounds_s(s: Digest, n: nat) -> Digest
    decreases n,
{
    if n == 0 {
        s
    } else {
        round_s(rounds_s(s, (n - 1) as nat), (n - 1) as nat)
    }
}

#[verifier::opaque]
pub open spec fn permute_s(s: Digest) -> Digest {
    rounds_s(s, ROUNDS as nat)
}

/// The state after one more element is absorbed into the first lane.
pub open spec fn absorb_s(s: Digest, v: int) -> Digest {
    permute_s(Digest { a: add_s(s.a as int, v) as u64, ..s })
}

/// The state after absorbing every element of `vs`, in order.
pub open spec fn absorb_all_s(s: Digest, vs: Seq<u64>) -> Digest
    decreases vs.len(),
{
    if vs.len() == 0 {
        s
    } else {
        absorb_s(absorb_all_s(s, vs.drop_last()), vs.last() as int)
    }
}

/// The commitment to an ordered pair of commitments.
pub open spec fn merge_s(l: Digest, r: Digest) -> Digest {
    let p = permute_s(l);
    permute_s(
        Digest {
            a: add_s(p.a as int, r.a as int) as u64,
            b: add_s(p.b as int, r.b as int) as u64,
            c: add_s(p.c as int, r.c as int) as u64,
            d: add_s(p.d as int, r.d as int) as u64,
        },
    )
}

fn round(s: Digest, r: u64) -> (o: Digest)
    requires
        s.wf(),
        r < ROUNDS,
    ensures
        o == round_s(s, r as nat),
        o.wf(),
{
    let k: u64 = 4 * r + 1;
    let x0 = fpow(fadd(s.a, k), 7);
    let x1 = fadd(s.b, k + 1);
    let x2 = fadd(s.c, k + 2);
    let x3 = fadd(s.d, k + 3);
    let t = fadd(fadd(x0, x1), fadd(x2, x3));
    Digest { a: fadd(t, x0), b: fadd(t, x1), c: fadd(t, x2), d: fadd(t, x3) }
}

pub fn permute(s: Digest) -> (o: Digest)
    requires
        s.wf(),
    ensures
        o == permute_s(s),
        o.wf(),
{
    let mut cur = s;
    let mut i: u64 = 0;
    while i < ROUNDS
        invariant
            i <= ROUNDS,
            cur == rounds_s(s, i as nat),
            cur.wf(),
        decreases ROUNDS - i,
    {
        cur = round(cur, i);
        i = i + 1;
    }
    proof {
        reveal(permute_s);
    }
    cur
}

pub fn absorb(s: Digest, v: u64) -> (o: Digest)
    requires
        s.wf(),
        is_elem(v as int),
    ensures
        o == absorb_s(s, v as int),
        o.wf(),
{
    permute(Digest { a: fadd(s.a, v), ..s })
}

/// Absorbs every element of `vs` in order.
pub fn absorb_all(s: Digest, vs: &Vec<u64>) -> (o: Digest)
    requires
        s.wf(),
        forall|i: int| 0 <= i < vs@.len() ==> is_elem(#[trigger] vs@[i] as int),
    ensures
        o == absorb_all_s(s, vs@),
        o.wf(),
{
    let mut cur = s;
    let mut i: usize = 0;
    while i < vs.len()
        invariant
            i <= vs@.len(),
            cur == absorb_all_s(s, vs@.subrange(0, i as int)),
            cur.wf(),
            forall|j: int| 0 <= j < vs@.len() ==> is_elem(#[trigger] vs@[j] as int),
        decreases vs@.len() - i,
    {
        assert(vs@.subrange(0, i as int + 1).drop_last() =~= vs@.subrange(0, i as int));
        cur = absorb(cur, vs[i]);
        i = i + 1;
    }
    assert(vs@.subrange(0, vs@.len() as int) =~= vs@);
    cur
}

pub fn merge(l: Digest, r: Digest) -> (o: Digest)
    requires
        l.wf(),
        r.wf(),
    ensures
        o == merge_s(l, r),
        o.wf(),
{
    let p = permute(l);
    permute(Digest { a: fadd(p.a, r.a), b: fadd(p.b, r.b), c: fadd(p.c, r.c), d: fadd(p.d, r.d) })
}

} // verus!
