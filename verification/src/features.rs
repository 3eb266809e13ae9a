//! The layout of the feature vector.
//!
//! ```text
//! [ embedding            (384)
//! | domain:  p1,p2,p3 proportions, confidence
//! | address: p1,p2,p3 proportions, confidence ]
//! ```
//!
//! The order is a stable contract: it is baked into every stored model, so that a
//! change here is a new feature version. The features themselves are numbers of
//! some type `T`; nothing here computes with them.

use vstd::prelude::*;

use crate::history::ClassCounts;

verus! {

/// Dimensions of the embedding block.
pub const EMBED_DIM: usize = 384;

/// Dimensions of one sender-history block: three proportions and a confidence.
pub const HIST_DIM: usize = 4;

/// Total length of a feature vector: embedding, domain block, address block.
pub const FEATURE_DIM: usize = EMBED_DIM + HIST_DIM + HIST_DIM;

/// One sender-history block: the three smoothed class proportions and the
/// confidence in them.
#[derive(Debug, Clone, Copy)]
pub struct HistBlock<T> {
    /// Smoothed class proportions `[p1, p2, p3]`.
    pub proportions: [T; 3],
    /// Confidence in this sender's history.
    pub confidence: T,
}

impl<T> HistBlock<T> {
    /// The slots of this block, in the order in which they stand in the feature
    /// vector: the proportions, then the confidence.
    pub open spec fn slots(self) -> Seq<T> {
        self.proportions@.push(self.confidence)
    }
}

impl<T: Copy + Default> HistBlock<T> {
    /// The block of a sender with no history: exactly the prior, and the zero of
    /// the number type as its confidence.
    pub fn from_prior(prior: &[T; 3]) -> (r: HistBlock<T>)
        ensures
            r.proportions@ == prior@,
            call_ensures(T::default, (), r.confidence),
    {
        HistBlock { proportions: [prior[0], prior[1], prior[2]], confidence: T::default() }
    }
}

/// Whether there is no observation among the counts.
pub open spec fn no_history(counts: Seq<u32>) -> bool {
    counts[0] == 0 && counts[1] == 0 && counts[2] == 0
}

/// The block of a sender with the history `counts`. A sender without history
/// gets exactly the prior with no confidence, whatever the smoothing came to.
pub fn hist_block<T: Copy + Default>(
    counts: &ClassCounts,
    prior: &[T; 3],
    smoothed: [T; 3],
    confidence: T,
) -> (r: HistBlock<T>)
    ensures
        no_history(counts@) ==> r.proportions@ == prior@ && call_ensures(
            T::default,
            (),
            r.confidence,
        ),
        !no_history(counts@) ==> r.proportions == smoothed && r.confidence == confidence,
{
    if counts[0] == 0 && counts[1] == 0 && counts[2] == 0 {
        HistBlock::from_prior(prior)
    } else {
        HistBlock { proportions: smoothed, confidence }
    }
}

/// The feature vector of an embedding and two history blocks.
pub open spec fn feature_vector<T>(
    embedding: Seq<T>,
    domain_hist: HistBlock<T>,
    addr_hist: HistBlock<T>,
) -> Seq<T> {
    embedding + domain_hist.slots() + addr_hist.slots()
}

/// Assemble the feature vector from the embedding and the two history blocks.
pub fn assemble<T: Copy>(
    embedding: &[T],
    domain_hist: &HistBlock<T>,
    addr_hist: &HistBlock<T>,
) -> (r: Vec<T>)
    requires
        embedding@.len() == EMBED_DIM,
    ensures
        r@ == feature_vector(embedding@, *domain_hist, *addr_hist),
        r@.len() == FEATURE_DIM,
{
    let mut out: Vec<T> = Vec::with_capacity(FEATURE_DIM);
    let mut i: usize = 0;
    while i < embedding.len()
        invariant
            i <= embedding@.len(),
            out@ == embedding@.take(i as int),
        decreases embedding@.len() - i,
    {
        out.push(embedding[i]);
        i += 1;
    }
    assert(embedding@.take(i as int) == embedding@);
    push_hist(&mut out, domain_hist);
    push_hist(&mut out, addr_hist);
    out
}

/// Append one history block: the three proportions, then the confidence.
fn push_hist<T: Copy>(out: &mut Vec<T>, hist: &HistBlock<T>)
    ensures
        final(out)@ == old(out)@ + hist.slots(),
{
    out.push(hist.proportions[0]);
    out.push(hist.proportions[1]);
    out.push(hist.proportions[2]);
    out.push(hist.confidence);
}

/// Where each part of a feature vector stands: the embedding in front, the domain
/// block behind it, the address block at the end, each block with its proportions
/// in class-index order and its confidence last.
pub proof fn law_layout<T>(embedding: Seq<T>, domain_hist: HistBlock<T>, addr_hist: HistBlock<T>)
    requires
        embedding.len() == EMBED_DIM,
    ensures
        FEATURE_DIM == 392,
        feature_vector(embedding, domain_hist, addr_hist).len() == FEATURE_DIM,
        feature_vector(embedding, domain_hist, addr_hist).take(EMBED_DIM as int) == embedding,
        forall|c: int|
            0 <= c < 3 ==> #[trigger] domain_hist.proportions@[c] == feature_vector(
                embedding,
                domain_hist,
                addr_hist,
            )[EMBED_DIM + c],
        feature_vector(embedding, domain_hist, addr_hist)[EMBED_DIM + 3]
            == domain_hist.confidence,
        forall|c: int|
            0 <= c < 3 ==> #[trigger] addr_hist.proportions@[c] == feature_vector(
                embedding,
                domain_hist,
                addr_hist,
            )[EMBED_DIM + HIST_DIM + c],
        feature_vector(embedding, domain_hist, addr_hist)[FEATURE_DIM - 1]
            == addr_hist.confidence,
{
    assert(feature_vector(embedding, domain_hist, addr_hist).take(EMBED_DIM as int) =~= embedding);
}

/// Different inputs make different feature vectors: no slot is lost.
pub proof fn law_layout_keeps_every_slot<T>(
    e: Seq<T>,
    d: HistBlock<T>,
    a: HistBlock<T>,
    e2: Seq<T>,
    d2: HistBlock<T>,
    a2: HistBlock<T>,
)
    requires
        e.len() == EMBED_DIM,
        e2.len() == EMBED_DIM,
        feature_vector(e, d, a) == feature_vector(e2, d2, a2),
    ensures
        e == e2,
        d.slots() == d2.slots(),
        a.slots() == a2.slots(),
{
    let n = EMBED_DIM as int;
    let h = HIST_DIM as int;
    let v = feature_vector(e, d, a);
    let w = feature_vector(e2, d2, a2);
    assert(e == v.subrange(0, n) && e2 == w.subrange(0, n));
    assert(d.slots() == v.subrange(n, n + h) && d2.slots() == w.subrange(n, n + h));
    assert(a.slots() == v.subrange(n + h, n + h + h) && a2.slots() == w.subrange(
        n + h,
        n + h + h,
    ));
}

/// A sender has no history exactly if none of the three classes was observed.
pub proof fn law_no_history(counts: Seq<u32>)
    requires
        counts.len() == 3,
    ensures
        no_history(counts) <==> forall|c: int| 0 <= c < 3 ==> #[trigger] counts[c] == 0,
{
    if forall|c: int| 0 <= c < 3 ==> #[trigger] counts[c] == 0 {
        assert(counts[0] == 0 && counts[1] == 0 && counts[2] == 0);
    }
}

} // verus!
