use vstd::prelude::*;

verus! {

/// Slowest tempo of the histogram, in beats per minute.
pub const MIN_BPM: u32 = 60;

/// Number of one-BPM bins of the histogram, from 60 to 200 BPM.
pub const BPM_BINS: usize = 141;

/// The histogram bin of a tempo vote rounded to whole BPM: its offset from
/// 60 BPM, clamped to the bins `0..=140`.
pub open spec fn tempo_bin(vote: i32) -> int {
    let d = vote - 60;
    if d < 0 { 0 } else if d > 140 { 140 } else { d }
}

/// A vote counts for its own bin and for the two bins next to it.
pub open spec fn counts_for(vote: i32, bin: int) -> bool {
    -1 <= tempo_bin(vote) - bin <= 1
}

/// The number of votes that bin `bin` of the histogram receives.
pub open spec fn bin_votes(votes: Seq<i32>, bin: int) -> nat
    decreases votes.len(),
{
    if votes.len() == 0 {
        0
    } else {
        bin_votes(votes.drop_last(), bin) + if counts_for(votes.last(), bin) { 1nat } else { 0nat }
    }
}

/// The number of votes whose own bin is `bin`, before any smoothing.
pub open spec fn direct_votes(votes: Seq<i32>, bin: int) -> nat
    decreases votes.len(),
{
    if votes.len() == 0 {
        0
    } else {
        direct_votes(votes.drop_last(), bin) + if tempo_bin(votes.last()) == bin { 1nat } else { 0nat }
    }
}

/// Bin `a` ranks above or level with bin `b`: it has more smoothed votes,
/// or as many and at least as many direct votes.
pub open spec fn ranks_at_least(votes: Seq<i32>, a: int, b: int) -> bool {
    ||| bin_votes(votes, a) > bin_votes(votes, b)
    ||| bin_votes(votes, a) == bin_votes(votes, b) && direct_votes(votes, a) >= direct_votes(votes, b)
}

/// A bin never receives more direct votes than were cast.
proof fn lemma_direct_votes_bounded(votes: Seq<i32>, bin: int)
    ensures
        direct_votes(votes, bin) <= votes.len(),
    decreases votes.len(),
{
    if votes.len() > 0 {
        lemma_direct_votes_bounded(votes.drop_last(), bin);
    }
}

/// A bin never receives more votes than were cast.
proof fn lemma_bin_votes_bounded(votes: Seq<i32>, bin: int)
    ensures
        bin_votes(votes, bin) <= votes.len(),
    decreases votes.len(),
{
    if votes.len() > 0 {
        lemma_bin_votes_bounded(votes.drop_last(), bin);
    }
}

/// The tempo, in whole BPM, that wins a histogram vote among tempo
/// estimates rounded to whole BPM; `0` when there are no votes.
///
/// Each vote counts for its bin and the two neighbouring bins; the winner
/// is the bin with the most of these smoothed votes. The smoothing does not
/// move the peak: among bins tied on smoothed votes the one with the most
/// votes of its own wins, and only then the fastest.
pub fn tempo_from_votes(votes: &[i32]) -> (bpm: u32)
    requires
        votes@.len() <= u32::MAX,
    ensures
        votes@.len() == 0 ==> bpm == 0,
        votes@.len() > 0 ==> {
            let best = bpm - 60;
            &&& 60 <= bpm <= 200
            &&& forall|b: int| 0 <= b <= 140 ==> ranks_at_least(votes@, best, b)
            &&& forall|b: int| best < b <= 140 ==> !ranks_at_least(votes@, b, best)
        },
{
    if votes.len() == 0 {
        return 0;
    }
    let mut histogram: Vec<u32> = Vec::new();
    let mut direct: Vec<u32> = Vec::new();
    let mut b: usize = 0;
    while b < BPM_BINS
        invariant
            b <= BPM_BINS,
            histogram@.len() == b,
            direct@.len() == b,
            forall|j: int| 0 <= j < b ==> histogram@[j] == 0 && direct@[j] == 0,
        decreases BPM_BINS - b,
    {
        histogram.push(0);
        direct.push(0);
        b = b + 1;
    }
    let n = votes.len();
    let mut i: usize = 0;
    while i < n
        invariant
            n == votes@.len(),
            n <= u32::MAX,
            i <= n,
            histogram@.len() == BPM_BINS,
            direct@.len() == BPM_BINS,
            forall|j: int| 0 <= j < BPM_BINS ==> histogram@[j] == bin_votes(votes@.take(i as int), j),
            forall|j: int| 0 <= j < BPM_BINS ==> direct@[j] == direct_votes(votes@.take(i as int), j),
        decreases n - i,
    {
        let vote = votes[i];
        let offset: i64 = vote as i64 - 60;
        let bin: usize = if offset < 0 { 0 } else if offset > 140 { 140 } else { offset as usize };
        let ghost before = votes@.take(i as int);
        proof {
            assert(votes@.take(i + 1).drop_last() =~= before);
            assert forall|j: int| 0 <= j < BPM_BINS implies histogram@[j] < u32::MAX && direct@[j] < u32::MAX by {
                lemma_bin_votes_bounded(before, j);
                lemma_direct_votes_bounded(before, j);
            }
        }
        direct.set(bin, direct[bin] + 1);
        histogram.set(bin, histogram[bin] + 1);
        if bin > 0 {
            histogram.set(bin - 1, histogram[bin - 1] + 1);
        }
        if bin < 140 {
            histogram.set(bin + 1, histogram[bin + 1] + 1);
        }
        i = i + 1;
    }
    proof {
        assert(votes@.take(n as int) =~= votes@);
    }
    let mut best: usize = 0;
    let mut j: usize = 1;
    while j < BPM_BINS
        invariant
            histogram@.len() == BPM_BINS,
            direct@.len() == BPM_BINS,
            1 <= j <= BPM_BINS,
            forall|k: int| 0 <= k < BPM_BINS ==> histogram@[k] == bin_votes(votes@, k),
            forall|k: int| 0 <= k < BPM_BINS ==> direct@[k] == direct_votes(votes@, k),
            best < j,
            forall|k: int| 0 <= k < j ==> ranks_at_least(votes@, best as int, k),
            forall|k: int| best < k < j ==> !ranks_at_least(votes@, k, best as int),
        decreases BPM_BINS - j,
    {
        let ghost old_best = best as int;
        if histogram[j] > histogram[best] || (histogram[j] == histogram[best] && direct[j] >= direct[best]) {
            best = j;
            proof {
                assert forall|k: int| 0 <= k < j + 1 implies ranks_at_least(votes@, j as int, k) by {
                    if k < j {
                        assert(ranks_at_least(votes@, old_best, k));
                    }
                }
            }
        }
        j = j + 1;
    }
    (best as u32) + MIN_BPM
}

/// When every vote falls in bin `b`, bin `b` holds them all directly and
/// no other bin holds any.
proof fn lemma_unanimous_counts(votes: Seq<i32>, b: int, c: int)
    requires
        forall|i: int| 0 <= i < votes.len() ==> tempo_bin(#[trigger] votes[i]) == b,
    ensures
        direct_votes(votes, b) == votes.len(),
        c != b ==> direct_votes(votes, c) == 0,
        bin_votes(votes, b) == votes.len(),
    decreases votes.len(),
{
    if votes.len() > 0 {
        let d = votes.drop_last();
        assert forall|i: int| 0 <= i < d.len() implies tempo_bin(#[trigger] d[i]) == b by {
            assert(d[i] == votes[i]);
        }
        assert(tempo_bin(votes[votes.len() - 1]) == b);
        lemma_unanimous_counts(d, b, c);
    }
}

/// The smoothing never moves a unanimous vote: when every vote falls in the
/// same bin, that bin wins.
pub proof fn lemma_unanimous_vote_wins(votes: Seq<i32>, b: int, best: int)
    requires
        votes.len() > 0,
        forall|i: int| 0 <= i < votes.len() ==> tempo_bin(#[trigger] votes[i]) == b,
        0 <= best <= 140,
        forall|c: int| 0 <= c <= 140 ==> ranks_at_least(votes, best, c),
    ensures
        best == b,
{
    assert(tempo_bin(votes[0]) == b);
    assert(0 <= b <= 140);
    lemma_unanimous_counts(votes, b, best);
    lemma_bin_votes_bounded(votes, best);
    assert(ranks_at_least(votes, best, b));
}

} // verus!
