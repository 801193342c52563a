//! The binary layout of a proof artifact, for transport to a verifier.
//!
//! The artifact is first laid out as 64-bit words, then each word is
//! written as eight bytes, least significant first. In words:
//! the trace root (four words); the number of layer roots, then each root;
//! the number of remainder values, then each value; the number of queries,
//! then each query; the number of outputs, then each output; the program
//! hash (four words). A query is its trace opening, the number of layer
//! openings, then each of them. An opening is its index, the number of its
//! values, the values, the length of its path, then each digest of the path.
use vstd::prelude::*;
use crate::hash::Digest;
use crate::prover::{Opening, OpeningView, ProofArtifact, ProofView, QueryProof, QueryView};

verus! {

pub open spec fn digest_words_s(d: Digest) -> Seq<u64> {
    seq![d.a, d.b, d.c, d.d]
}

pub open spec fn digests_words_s(s: Seq<Digest>) -> Seq<u64>
    decreases s.len(),
{
    if s.len() == 0 {
        Seq::empty()
    } else {
        digests_words_s(s.drop_last()) + digest_words_s(s.last())
    }
}

/// A sequence of values, preceded by its length.
pub open spec fn counted_s(s: Seq<u64>) -> Seq<u64> {
    seq![s.len() as u64] + s
}

pub open spec fn opening_words_s(o: OpeningView) -> Seq<u64> {
    seq![o.index as u64] + counted_s(o.values) + seq![o.path.len() as u64] + digests_words_s(o.path)
}

pub open spec fn openings_words_s(s: Seq<OpeningView>) -> Seq<u64>
    decreases s.len(),
{
    if s.len() == 0 {
        Seq::empty()
    } else {
        openings_words_s(s.drop_last()) + opening_words_s(s.last())
    }
}

pub open spec fn query_words_s(q: QueryView) -> Seq<u64> {
    opening_words_s(q.trace) + seq![q.layers.len() as u64] + openings_words_s(q.layers)
}

pub open spec fn queries_words_s(s: Seq<QueryView>) -> Seq<u64>
    decreases s.len(),
{
    if s.len() == 0 {
        Seq::empty()
    } else {
        queries_words_s(s.drop_last()) + query_words_s(s.last())
    }
}

/// The artifact as words.
pub open spec fn proof_words_s(p: ProofView) -> Seq<u64> {
    digest_words_s(p.trace_root) + seq![p.layer_roots.len() as u64] + digests_words_s(p.layer_roots)
        + counted_s(p.remainder) + seq![p.queries.len() as u64] + queries_words_s(p.queries)
        + counted_s(p.outputs) + p.program_hash
}

/// The `k` low bytes of `v`, least significant first.
pub open spec fn le_bytes_s(v: nat, k: nat) -> Seq<u8>
    decreases k,
{
    if k == 0 {
        Seq::empty()
    } else {
        seq![(v % 256) as u8] + le_bytes_s(v / 256, (k - 1) as nat)
    }
}

/// Each word as eight bytes, least significant first.
pub open spec fn words_bytes_s(w: Seq<u64>) -> Seq<u8>
    decreases w.len(),
{
    if w.len() == 0 {
        Seq::empty()
    } else {
        words_bytes_s(w.drop_last()) + le_bytes_s(w.last() as nat, 8)
    }
}

fn put_digest(out: &mut Vec<u64>, d: Digest)
    ensures
        final(out)@ == old(out)@ + digest_words_s(d),
{
    out.push(d.a);
    out.push(d.b);
    out.push(d.c);
    out.push(d.d);
    assert(final(out)@ =~= old(out)@ + digest_words_s(d));
}

fn put_digests(out: &mut Vec<u64>, s: &Vec<Digest>)
    ensures
        final(out)@ == old(out)@ + digests_words_s(s@),
{
    let ghost start = out@;
    let mut i: usize = 0;
    while i < s.len()
        invariant
            i <= s@.len(),
            out@ == start + digests_words_s(s@.take(i as int)),
        decreases s@.len() - i,
    {
        assert(s@.take(i as int + 1).drop_last() =~= s@.take(i as int));
        put_digest(out, s[i]);
        i = i + 1;
        assert(out@ =~= start + digests_words_s(s@.take(i as int)));
    }
    assert(s@.take(s@.len() as int) =~= s@);
}

fn put_counted(out: &mut Vec<u64>, s: &Vec<u64>)
    ensures
        final(out)@ == old(out)@ + counted_s(s@),
{
    let ghost start = out@;
    out.push(s.len() as u64);
    let mut i: usize = 0;
    while i < s.len()
        invariant
            i <= s@.len(),
            out@ == start + seq![s@.len() as u64] + s@.take(i as int),
        decreases s@.len() - i,
    {
        out.push(s[i]);
        i = i + 1;
        assert(out@ =~= start + seq![s@.len() as u64] + s@.take(i as int));
    }
    assert(s@.take(s@.len() as int) =~= s@);
    assert(out@ =~= start + counted_s(s@));
}

fn put_opening(out: &mut Vec<u64>, o: &Opening)
    ensures
        final(out)@ == old(out)@ + opening_words_s(o@),
{
    let ghost start = out@;
    out.push(o.index as u64);
    put_counted(out, &o.values);
    out.push(o.path.len() as u64);
    put_digests(out, &o.path);
    assert(out@ =~= start + opening_words_s(o@));
}

fn put_openings(out: &mut Vec<u64>, s: &Vec<Opening>)
    ensures
        final(out)@ == old(out)@ + openings_words_s(Seq::new(s@.len(), |k: int| s@[k]@)),
{
    let ghost start = out@;
    let ghost views = Seq::new(s@.len(), |k: int| s@[k]@);
    let mut i: usize = 0;
    while i < s.len()
        invariant
            i <= s@.len(),
            views == Seq::new(s@.len(), |k: int| s@[k]@),
            out@ == start + openings_words_s(views.take(i as int)),
        decreases s@.len() - i,
    {
        assert(views.take(i as int + 1).drop_last() =~= views.take(i as int));
        put_opening(out, &s[i]);
        i = i + 1;
        assert(out@ =~= start + openings_words_s(views.take(i as int)));
    }
    assert(views.take(s@.len() as int) =~= views);
}

fn put_query(out: &mut Vec<u64>, q: &QueryProof)
    ensures
        final(out)@ == old(out)@ + query_words_s(q@),
{
    let ghost start = out@;
    put_opening(out, &q.trace);
    out.push(q.layers.len() as u64);
    put_openings(out, &q.layers);
    assert(out@ =~= start + query_words_s(q@));
}

/// The artifact as words.
pub fn proof_words(p: &ProofArtifact) -> (r: Vec<u64>)
    ensures
        r@ == proof_words_s(p@),
{
    let mut out: Vec<u64> = Vec::new();
    put_digest(&mut out, p.trace_root);
    out.push(p.layer_roots.len() as u64);
    put_digests(&mut out, &p.layer_roots);
    put_counted(&mut out, &p.remainder);
    out.push(p.queries.len() as u64);
    let ghost before = out@;
    let ghost views = Seq::new(p.queries@.len(), |k: int| p.queries@[k]@);
    let mut i: usize = 0;
    while i < p.queries.len()
        invariant
            i <= p.queries@.len(),
            views == Seq::new(p.queries@.len(), |k: int| p.queries@[k]@),
            out@ == before + queries_words_s(views.take(i as int)),
        decreases p.queries@.len() - i,
    {
        assert(views.take(i as int + 1).drop_last() =~= views.take(i as int));
        put_query(&mut out, &p.queries[i]);
        i = i + 1;
        assert(out@ =~= before + queries_words_s(views.take(i as int)));
    }
    assert(views.take(p.queries@.len() as int) =~= views);
    put_counted(&mut out, &p.outputs);
    out.push(p.program_hash[0]);
    out.push(p.program_hash[1]);
    out.push(p.program_hash[2]);
    out.push(p.program_hash[3]);
    assert(out@ =~= proof_words_s(p@));
    out
}

/// Writes `v` as eight bytes, least significant first.
fn put_le(out: &mut Vec<u8>, v: u64)
    ensures
        final(out)@ == old(out)@ + le_bytes_s(v as nat, 8),
{
    let ghost start = out@;
    let mut x: u64 = v;
    let mut i: usize = 0;
    while i < 8
        invariant
            i <= 8,
            out@ + le_bytes_s(x as nat, (8 - i) as nat) == start + le_bytes_s(v as nat, 8),
        decreases 8 - i,
    {
        let ghost prev = out@;
        out.push((x % 256) as u8);
        proof {
            assert(le_bytes_s(x as nat, (8 - i) as nat) == seq![(x % 256) as u8] + le_bytes_s(
                (x / 256) as nat,
                (8 - i - 1) as nat,
            ));
            assert(prev + (seq![(x % 256) as u8] + le_bytes_s((x / 256) as nat, (8 - i - 1) as nat)) =~= out@
                + le_bytes_s((x / 256) as nat, (8 - i - 1) as nat));
        }
        x = x / 256;
        i = i + 1;
    }
    assert(le_bytes_s(x as nat, 0) =~= Seq::<u8>::empty());
    assert(out@ + Seq::<u8>::empty() =~= out@);
}

/// The artifact in its binary layout.
pub fn to_bytes(p: &ProofArtifact) -> (r: Vec<u8>)
    ensures
        r@ == words_bytes_s(proof_words_s(p@)),
{
    let words = proof_words(p);
    let mut out: Vec<u8> = Vec::new();
    let mut i: usize = 0;
    while i < words.len()
        invariant
            i <= words@.len(),
            out@ == words_bytes_s(words@.take(i as int)),
        decreases words@.len() - i,
    {
        assert(words@.take(i as int + 1).drop_last() =~= words@.take(i as int));
        put_le(&mut out, words[i]);
        i = i + 1;
    }
    assert(words@.take(words@.len() as int) =~= words@);
    out
}

} // verus!
