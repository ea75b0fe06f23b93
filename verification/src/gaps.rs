use vstd::prelude::*;

verus! {

/// Every frame in `s..e` is below the vocal threshold.
pub open spec fn all_below(below: Seq<bool>, s: int, e: int) -> bool {
    forall|k: int| s <= k < e ==> #[trigger] below[k]
}

/// `s..e` is a maximal stretch of frames below the vocal threshold: it is
/// non-empty, and the frames just outside it, where there are any, are not
/// below the threshold.
pub open spec fn is_quiet_run(below: Seq<bool>, s: int, e: int) -> bool {
    &&& 0 <= s < e <= below.len()
    &&& all_below(below, s, e)
    &&& (s == 0 || !below[s - 1])
    &&& (e == below.len() || !below[e])
}

/// `s..e` is a vocal gap: a maximal quiet stretch of at least `min_len`
/// frames that, unless it runs to the end of the audio, lasts at most
/// `max_len` frames.
pub open spec fn is_vocal_gap(below: Seq<bool>, min_len: int, max_len: int, s: int, e: int) -> bool {
    &&& is_quiet_run(below, s, e)
    &&& e - s >= min_len
    &&& (e == below.len() || e - s <= max_len)
}

/// Two quiet stretches that end at the same frame start at the same frame.
proof fn lemma_quiet_start_unique(below: Seq<bool>, s: int, t: int, e: int)
    requires
        0 <= s < e,
        0 <= t < e,
        all_below(below, s, e),
        s == 0 || !below[s - 1],
        all_below(below, t, e),
        t == 0 || !below[t - 1],
    ensures
        s == t,
{
    if s < t {
        assert(below[t - 1]);
    } else if t < s {
        assert(below[s - 1]);
    }
}

/// The vocal gaps of a track, as frame ranges `(start, end)` in order:
/// `below[i]` tells whether frame `i` falls below the vocal threshold.
pub fn find_vocal_gaps(below: &[bool], min_len: usize, max_len: usize) -> (gaps: Vec<(usize, usize)>)
    ensures
        forall|k: int| 0 <= k < gaps@.len() ==>
            is_vocal_gap(below@, min_len as int, max_len as int, (#[trigger] gaps@[k]).0 as int, gaps@[k].1 as int),
        forall|k: int, l: int| #![trigger gaps@[k], gaps@[l]] 0 <= k && l == k + 1 && l < gaps@.len() ==> gaps@[k].1 < gaps@[l].0,
        forall|s: int, e: int| #[trigger] is_vocal_gap(below@, min_len as int, max_len as int, s, e) ==>
            exists|k: int| 0 <= k < gaps@.len() && gaps@[k] == (s as usize, e as usize),
{
    let n = below.len();
    let mut gaps: Vec<(usize, usize)> = Vec::new();
    let mut gap_start: Option<usize> = None;
    let mut i: usize = 0;
    while i < n
        invariant
            n == below@.len(),
            i <= n,
            match gap_start {
                None => i == 0 || !below@[i - 1],
                Some(st) => st < i && all_below(below@, st as int, i as int) && (st == 0 || !below@[st - 1]),
            },
            forall|k: int| 0 <= k < gaps@.len() ==>
                is_vocal_gap(below@, min_len as int, max_len as int, (#[trigger] gaps@[k]).0 as int, gaps@[k].1 as int)
                && gaps@[k].1 < i,
            forall|k: int, l: int| #![trigger gaps@[k], gaps@[l]] 0 <= k && l == k + 1 && l < gaps@.len() ==> gaps@[k].1 < gaps@[l].0,
            gap_start matches Some(st) ==> forall|k: int| 0 <= k < gaps@.len() ==> (#[trigger] gaps@[k]).1 < st,
            forall|s: int, e: int| #[trigger] is_vocal_gap(below@, min_len as int, max_len as int, s, e) && e < i ==>
                exists|k: int| 0 <= k < gaps@.len() && gaps@[k] == (s as usize, e as usize),
        decreases n - i,
    {
        if below[i] {
            if gap_start.is_none() {
                gap_start = Some(i);
            }
            proof {
                assert forall|s: int, e: int| #[trigger] is_vocal_gap(below@, min_len as int, max_len as int, s, e)
                    && e < i + 1 implies exists|k: int| 0 <= k < gaps@.len() && gaps@[k] == (s as usize, e as usize) by {
                    if e == i {
                        assert(!below@[e]);
                    }
                }
            }
        } else {
            let ghost old_gaps = gaps@;
            if let Some(start) = gap_start {
                let length = i - start;
                if length >= min_len && length <= max_len {
                    gaps.push((start, i));
                }
                proof {
                    assert forall|s: int, e: int| #[trigger] is_vocal_gap(below@, min_len as int, max_len as int, s, e)
                        && e < i + 1 implies exists|k: int| 0 <= k < gaps@.len() && gaps@[k] == (s as usize, e as usize) by {
                        if e == i {
                            lemma_quiet_start_unique(below@, s, start as int, e);
                            assert(gaps@[gaps@.len() - 1] == (s as usize, e as usize));
                        } else {
                            let k = choose|k: int| 0 <= k < old_gaps.len() && old_gaps[k] == (s as usize, e as usize);
                            assert(gaps@[k] == old_gaps[k]);
                        }
                    }
                }
                gap_start = None;
            } else {
                proof {
                    assert forall|s: int, e: int| #[trigger] is_vocal_gap(below@, min_len as int, max_len as int, s, e)
                        && e < i + 1 implies exists|k: int| 0 <= k < gaps@.len() && gaps@[k] == (s as usize, e as usize) by {
                        if e == i {
                            assert(below@[e - 1]);
                        }
                    }
                }
            }
        }
        i = i + 1;
    }
    let ghost old_gaps = gaps@;
    if let Some(start) = gap_start {
        let length = n - start;
        if length >= min_len {
            gaps.push((start, n));
        }
        proof {
            assert forall|s: int, e: int| #[trigger] is_vocal_gap(below@, min_len as int, max_len as int, s, e)
                implies exists|k: int| 0 <= k < gaps@.len() && gaps@[k] == (s as usize, e as usize) by {
                if e == n {
                    lemma_quiet_start_unique(below@, s, start as int, e);
                    assert(gaps@[gaps@.len() - 1] == (s as usize, e as usize));
                } else {
                    let k = choose|k: int| 0 <= k < old_gaps.len() && old_gaps[k] == (s as usize, e as usize);
                    assert(gaps@[k] == old_gaps[k]);
                }
            }
        }
    } else {
        proof {
            assert forall|s: int, e: int| #[trigger] is_vocal_gap(below@, min_len as int, max_len as int, s, e)
                implies exists|k: int| 0 <= k < gaps@.len() && gaps@[k] == (s as usize, e as usize) by {
                if e == n {
                    assert(below@[e - 1]);
                }
            }
        }
    }
    gaps
}

} // verus!
