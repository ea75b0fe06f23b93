use vstd::prelude::*;
use crate::catalog::{Category, SampleInfo};

verus! {

/// Positions `0..n`, in order.
pub open spec fn positions(n: nat) -> Seq<usize> {
    Seq::new(n, |i: int| i as usize)
}

/// Whether a sample's kind is one of the kinds a slot asks for.
pub open spec fn kind_offered(samples: Seq<SampleInfo>, categories: Seq<Category>, i: usize) -> bool {
    categories.contains(samples[i as int].category)
}

/// Positions in `samples` of the samples whose kind is among `categories`,
/// in library order.
pub open spec fn matching_samples(samples: Seq<SampleInfo>, categories: Seq<Category>) -> Seq<usize> {
    positions(samples.len()).filter(|i: usize| kind_offered(samples, categories, i))
}

/// A sample that repeats neither the file nor the kind of the previously
/// placed sample `last`.
pub open spec fn is_fresh(samples: Seq<SampleInfo>, last: Option<usize>, i: usize) -> bool {
    match last {
        Some(l) => i != l && samples[i as int].category != samples[l as int].category,
        None => true,
    }
}

/// A sample that does not repeat the file of the previously placed sample.
pub open spec fn is_not_repeat(last: Option<usize>, i: usize) -> bool {
    last != Some(i)
}

/// The sample picked from the non-empty list `available` on the `picks`-th
/// placement, where `k` is `picks % n` and `n` the number available: the
/// `k`-th fresh sample if there are that many; else, rotating through the
/// samples that are not the last one placed, the `k`-th of them modulo
/// their number; and only when the last sample placed is the sole match,
/// that sample again.
pub open spec fn rotated_choice(
    samples: Seq<SampleInfo>,
    available: Seq<usize>,
    last: Option<usize>,
    picks: nat,
) -> usize {
    let k = (picks % available.len()) as int;
    let fresh = available.filter(|i: usize| is_fresh(samples, last, i));
    let not_repeat = available.filter(|i: usize| is_not_repeat(last, i));
    if k < fresh.len() {
        fresh[k]
    } else if not_repeat.len() > 0 {
        not_repeat[k % not_repeat.len() as int]
    } else {
        available[k]
    }
}

/// Every element kept by a filter is an element of the filtered sequence.
pub proof fn lemma_filter_kept<A>(s: Seq<A>, pred: spec_fn(A) -> bool)
    ensures
        forall|i: int| 0 <= i < s.filter(pred).len() ==> s.contains(#[trigger] s.filter(pred)[i]),
    decreases s.len(),
{
    reveal(Seq::filter);
    if s.len() > 0 {
        lemma_filter_kept(s.drop_last(), pred);
        let sub = s.drop_last().filter(pred);
        assert forall|i: int| 0 <= i < s.filter(pred).len() implies s.contains(#[trigger] s.filter(pred)[i]) by {
            if i < sub.len() {
                let j = choose|j: int| 0 <= j < s.drop_last().len() && s.drop_last()[j] == sub[i];
                assert(s[j] == s.filter(pred)[i]);
            } else {
                assert(s[s.len() - 1] == s.filter(pred)[i]);
            }
        }
    }
}

/// Positions of the samples whose kind is among `categories`, in library
/// order.
pub fn available_samples(samples: &[SampleInfo], categories: &[Category]) -> (avail: Vec<usize>)
    ensures
        avail@ == matching_samples(samples@, categories@),
        forall|j: int| 0 <= j < avail@.len() ==>
            (#[trigger] avail@[j]) < samples@.len() && categories@.contains(samples@[avail@[j] as int].category),
        forall|j: int, l: int| #![trigger avail@[j], avail@[l]] 0 <= j < l < avail@.len() ==> avail@[j] < avail@[l],
        forall|i: int| 0 <= i < samples@.len() && categories@.contains(#[trigger] samples@[i].category) ==>
            avail@.contains(i as usize),
{
    let mut avail: Vec<usize> = Vec::new();
    let n = samples.len();
    let mut i: usize = 0;
    while i < n
        invariant
            n == samples@.len(),
            i <= n,
            avail@ == positions(i as nat).filter(|j: usize| kind_offered(samples@, categories@, j)),
        decreases n - i,
    {
        let offered = contains_category(categories, samples[i].category);
        proof {
            assert(positions((i + 1) as nat) =~= positions(i as nat).push(i));
            positions(i as nat).lemma_filter_push(i, |j: usize| kind_offered(samples@, categories@, j));
        }
        if offered {
            avail.push(i);
        }
        i = i + 1;
    }
    proof {
        let pred = |j: usize| kind_offered(samples@, categories@, j);
        let ps = positions(samples@.len());
        lemma_filter_kept(ps, pred);
        lemma_filter_increasing(ps, pred);
        assert forall|j: int| 0 <= j < avail@.len() implies
            (#[trigger] avail@[j]) < samples@.len() && categories@.contains(samples@[avail@[j] as int].category) by {
            ps.lemma_filter_pred(pred, j);
            assert(ps.contains(avail@[j]));
        }
        assert forall|i: int| 0 <= i < samples@.len() && categories@.contains(#[trigger] samples@[i].category) implies
            avail@.contains(i as usize) by {
            ps.lemma_filter_contains(pred, i);
        }
    }
    avail
}

/// A filter of a strictly increasing sequence is strictly increasing.
proof fn lemma_filter_increasing(s: Seq<usize>, pred: spec_fn(usize) -> bool)
    requires
        forall|j: int, l: int| 0 <= j < l < s.len() ==> s[j] < s[l],
    ensures
        forall|j: int, l: int| #![trigger s.filter(pred)[j], s.filter(pred)[l]]
            0 <= j < l < s.filter(pred).len() ==> s.filter(pred)[j] < s.filter(pred)[l],
    decreases s.len(),
{
    reveal(Seq::filter);
    if s.len() > 0 {
        let d = s.drop_last();
        lemma_filter_increasing(d, pred);
        lemma_filter_kept(d, pred);
        let f = s.filter(pred);
        let fd = d.filter(pred);
        assert forall|j: int, l: int| #![trigger f[j], f[l]] 0 <= j < l < f.len() implies f[j] < f[l] by {
            if l < fd.len() {
                assert(f[j] == fd[j] && f[l] == fd[l]);
            } else {
                assert(f[l] == s.last());
                assert(f[j] == fd[j]);
                assert(d.contains(fd[j]));
                let w = choose|w: int| 0 <= w < d.len() && d[w] == fd[j];
                assert(s[w] == d[w]);
            }
        }
    }
}

/// Whether `category` occurs in `categories`.
fn contains_category(categories: &[Category], category: Category) -> (found: bool)
    ensures
        found == categories@.contains(category),
{
    let mut i: usize = 0;
    while i < categories.len()
        invariant
            i <= categories@.len(),
            forall|j: int| 0 <= j < i ==> categories@[j] != category,
        decreases categories.len() - i,
    {
        if categories[i] == category {
            return true;
        }
        i = i + 1;
    }
    false
}

/// What the placement loop remembers between samples: the sample placed
/// last, and how many samples it has placed.
pub struct SampleRotation {
    pub last: Option<usize>,
    pub picks: usize,
}

impl SampleRotation {
    /// No sample placed yet.
    pub fn new() -> (rotation: SampleRotation)
        ensures
            rotation.last is None,
            rotation.picks == 0,
    {
        SampleRotation { last: None, picks: 0 }
    }

    /// Picks the sample for a slot that asks for `categories`, rotating
    /// through the matching samples and avoiding the file and the kind of
    /// the sample placed last: the file is repeated only when it is the
    /// sole match. Returns `None`, and changes nothing, when no sample of
    /// the library matches.
    pub fn next_sample(&mut self, samples: &[SampleInfo], categories: &[Category]) -> (chosen: Option<usize>)
        requires
            old(self).picks < usize::MAX,
            old(self).last matches Some(l) ==> l < samples@.len(),
        ensures
            ({
                let avail = matching_samples(samples@, categories@);
                if avail.len() == 0 {
                    &&& chosen is None
                    &&& *final(self) == *old(self)
                } else {
                    let pick = rotated_choice(samples@, avail, old(self).last, old(self).picks as nat);
                    &&& chosen == Some(pick)
                    &&& pick < samples@.len()
                    &&& categories@.contains(samples@[pick as int].category)
                    &&& final(self).last == Some(pick)
                    &&& final(self).picks == old(self).picks + 1
                    &&& (exists|j: int| 0 <= j < avail.len() && old(self).last != Some(#[trigger] avail[j]))
                        ==> old(self).last != Some(pick)
                }
            }),
    {
        let avail = available_samples(samples, categories);
        if avail.len() == 0 {
            return None;
        }
        let ghost avail_s = avail@;
        let ghost last = self.last;
        let ghost p_fresh = |i: usize| is_fresh(samples@, last, i);
        let ghost p_not_repeat = |i: usize| is_not_repeat(last, i);
        proof {
            lemma_filter_kept(positions(samples@.len()), |i: usize| kind_offered(samples@, categories@, i));
            assert forall|j: int| 0 <= j < avail_s.len() implies (#[trigger] avail_s[j]) < samples@.len() by {
                assert(positions(samples@.len()).contains(avail_s[j]));
            }
        }
        let mut fresh: Vec<usize> = Vec::new();
        let mut not_repeat: Vec<usize> = Vec::new();
        let n = avail.len();
        let mut i: usize = 0;
        while i < n
            invariant
                n == avail@.len(),
                avail@ == avail_s,
                i <= n,
                last == self.last,
                p_fresh == (|i: usize| is_fresh(samples@, last, i)),
                p_not_repeat == (|i: usize| is_not_repeat(last, i)),
                last matches Some(l) ==> l < samples@.len(),
                forall|j: int| 0 <= j < avail_s.len() ==> (#[trigger] avail_s[j]) < samples@.len(),
                fresh@ == avail_s.take(i as int).filter(p_fresh),
                not_repeat@ == avail_s.take(i as int).filter(p_not_repeat),
            decreases n - i,
        {
            let s = avail[i];
            proof {
                assert(avail_s.take(i + 1) =~= avail_s.take(i as int).push(s));
                avail_s.take(i as int).lemma_filter_push(s, p_fresh);
                avail_s.take(i as int).lemma_filter_push(s, p_not_repeat);
            }
            let repeats_file = match self.last {
                Some(l) => l == s,
                None => false,
            };
            let repeats_kind = match self.last {
                Some(l) => samples[l].category == samples[s].category,
                None => false,
            };
            if !repeats_file && !repeats_kind {
                fresh.push(s);
            }
            if !repeats_file {
                not_repeat.push(s);
            }
            i = i + 1;
        }
        proof {
            assert(avail_s.take(n as int) =~= avail_s);
            avail_s.lemma_filter_len(p_fresh);
            avail_s.lemma_filter_len(p_not_repeat);
        }
        let k = self.picks % n;
        let pick = if k < fresh.len() {
            proof {
                lemma_filter_kept(avail_s, p_fresh);
                assert(avail_s.contains(fresh@[k as int]));
                avail_s.lemma_filter_pred(p_fresh, k as int);
            }
            fresh[k]
        } else if not_repeat.len() > 0 {
            let r = k % not_repeat.len();
            proof {
                lemma_filter_kept(avail_s, p_not_repeat);
                assert(avail_s.contains(not_repeat@[r as int]));
                avail_s.lemma_filter_pred(p_not_repeat, r as int);
            }
            not_repeat[r]
        } else {
            proof {
                assert forall|j: int| 0 <= j < avail_s.len() implies last == Some(#[trigger] avail_s[j]) by {
                    if last != Some(avail_s[j]) {
                        avail_s.lemma_filter_contains(p_not_repeat, j);
                        assert(not_repeat@.contains(avail_s[j]));
                    }
                }
            }
            avail[k]
        };
        proof {
            let j = choose|j: int| 0 <= j < avail_s.len() && avail_s[j] == pick;
            assert(categories@.contains(samples@[avail_s[j] as int].category));
        }
        self.last = Some(pick);
        self.picks = self.picks + 1;
        Some(pick)
    }
}

} // verus!
