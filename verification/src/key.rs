use vstd::prelude::*;
use vstd::string::*;

verus! {

/// Samples in one analysis frame of the chromagram.
pub const KEY_FRAME_SIZE: usize = 4096;

/// Names of the twelve pitch classes, C = 0.
pub open spec fn note_names() -> Seq<&'static str> {
    seq!["C", "C#", "D", "D#", "E", "F", "F#", "G", "G#", "A", "A#", "B"]
}

/// The pitch classes of the white keys: the scale of C major.
pub open spec fn is_white_key(p: int) -> bool {
    p == 0 || p == 2 || p == 4 || p == 5 || p == 7 || p == 9 || p == 11
}

/// How many white keys lie below pitch class `p`.
pub open spec fn white_keys_below(p: int) -> int
    decreases p,
{
    if p <= 0 {
        0
    } else {
        white_keys_below(p - 1) + if is_white_key(p - 1) { 1int } else { 0int }
    }
}

/// The letter of the `j`-th white key counted from C: the letters run
/// alphabetically from C and wrap from G to A.
pub open spec fn white_key_letter(j: int) -> char {
    (('A' as int) + (j + 2) % 7) as char
}

/// The sharp spelling of pitch class `p`: a white key is named by its
/// letter, a black key by the letter of the white key below it and a sharp.
pub open spec fn sharp_spelling(p: int) -> Seq<char> {
    if is_white_key(p) {
        seq![white_key_letter(white_keys_below(p))]
    } else {
        seq![white_key_letter(white_keys_below(p) - 1), '#']
    }
}

/// The note names run in chromatic order from C, spelt with sharps.
pub proof fn lemma_note_names_chromatic()
    ensures
        forall|p: int| 0 <= p < 12 ==> (#[trigger] note_names()[p])@ == sharp_spelling(p),
{
    reveal_with_fuel(white_keys_below, 13);
    reveal_strlit("C");
    reveal_strlit("C#");
    reveal_strlit("D");
    reveal_strlit("D#");
    reveal_strlit("E");
    reveal_strlit("F");
    reveal_strlit("F#");
    reveal_strlit("G");
    reveal_strlit("G#");
    reveal_strlit("A");
    reveal_strlit("A#");
    reveal_strlit("B");
    assert forall|p: int| 0 <= p < 12 implies (#[trigger] note_names()[p])@ == sharp_spelling(p) by {
        assert(p == 0 || p == 1 || p == 2 || p == 3 || p == 4 || p == 5 || p == 6 || p == 7 || p == 8
            || p == 9 || p == 10 || p == 11);
        assert(note_names()[p]@ =~= sharp_spelling(p));
    }
}

/// The name of pitch class `pitch_class` (C = 0, C# = 1, ..., B = 11).
pub fn note_name(pitch_class: usize) -> (name: &'static str)
    requires
        pitch_class < 12,
    ensures
        name@ == note_names()[pitch_class as int]@,
        name@ == sharp_spelling(pitch_class as int),
{
    proof {
        lemma_note_names_chromatic();
    }
    let names: [&'static str; 12] = ["C", "C#", "D", "D#", "E", "F", "F#", "G", "G#", "A", "A#", "B"];
    let name = names[pitch_class];
    assert(name@ == note_names()[pitch_class as int]@);
    name
}

/// A musical key: the pitch class of its root, and whether it is minor.
#[derive(Clone, Copy, Debug, PartialEq, Eq, Structural)]
pub struct KeyLabel {
    pub root: u8,
    pub minor: bool,
}

/// The name of a key, such as "D# minor" or "C major".
pub open spec fn key_name_spec(key: KeyLabel) -> Seq<char> {
    note_names()[key.root as int]@ + (if key.minor { " minor"@ } else { " major"@ })
}

impl KeyLabel {
    /// The name of this key, such as "D# minor" or "C major".
    pub fn name(&self) -> (name: String)
        requires
            self.root < 12,
        ensures
            name@ == key_name_spec(*self),
            name@ == sharp_spelling(self.root as int) + (if self.minor { " minor"@ } else { " major"@ }),
    {
        let note = String::from_str(note_name(self.root as usize));
        if self.minor {
            note.concat(" minor")
        } else {
            note.concat(" major")
        }
    }
}

/// The pitch class (`0..12`, C = 0) of a MIDI note number.
pub fn pitch_class_of_midi(midi: i32) -> (pitch_class: usize)
    ensures
        pitch_class < 12,
        pitch_class as int == midi as int % 12,
{
    let r: i32 = midi % 12;
    ((r + 12) % 12) as usize
}

/// A key profile rotated to a new root: entry `i` of the result is entry
/// `(i + 12 - shift) % 12` of `profile`, so the profile's tonic moves from
/// pitch class 0 to pitch class `shift`.
pub fn rotate_profile<T: Copy>(profile: &[T; 12], shift: usize) -> (rotated: [T; 12])
    requires
        shift <= 12,
    ensures
        forall|i: int| 0 <= i < 12 ==> rotated@[i] == profile@[(i + 12 - shift) % 12],
{
    let mut rotated: [T; 12] = [profile[0]; 12];
    let mut i: usize = 0;
    while i < 12
        invariant
            shift <= 12,
            i <= 12,
            forall|j: int| 0 <= j < i ==> rotated@[j] == profile@[(j + 12 - shift) % 12],
        decreases 12 - i,
    {
        rotated[i] = profile[(i + 12 - shift) % 12];
        i = i + 1;
    }
    rotated
}

/// `runs` splits positions `0..opens.len()` into consecutive inclusive runs
/// `(first, last)`: a run starts at position 0 and at each position where
/// `opens` holds, and nowhere else.
pub open spec fn splits_into_runs(opens: Seq<bool>, runs: Seq<(usize, usize)>) -> bool {
    &&& (opens.len() == 0 <==> runs.len() == 0)
    &&& opens.len() > 0 ==> runs[0].0 == 0 && runs.last().1 == opens.len() - 1
    &&& forall|m: int| 0 <= m < runs.len() ==> (#[trigger] runs[m]).0 <= runs[m].1 < opens.len()
    &&& forall|m: int, n: int| #![trigger runs[m], runs[n]] 0 <= m && n == m + 1 && n < runs.len() ==> runs[m].1 + 1 == runs[n].0
    &&& forall|m: int| 0 <= m < runs.len() ==> (#[trigger] runs[m]).0 == 0 || opens[runs[m].0 as int]
    &&& forall|m: int, k: int| #![trigger runs[m], opens[k]] 0 <= m < runs.len() && runs[m].0 < k <= runs[m].1 ==> !opens[k]
}

/// Splits positions `0..opens.len()` into runs that start at position 0 and
/// wherever `opens` holds.
pub fn split_runs(opens: &[bool]) -> (runs: Vec<(usize, usize)>)
    ensures
        splits_into_runs(opens@, runs@),
{
    let n = opens.len();
    let mut runs: Vec<(usize, usize)> = Vec::new();
    if n == 0 {
        return runs;
    }
    let mut first: usize = 0;
    let mut k: usize = 1;
    while k < n
        invariant
            n == opens@.len(),
            0 <= first < k <= n,
            forall|j: int| first < j < k ==> !opens@[j],
            first == 0 || opens@[first as int],
            runs@.len() == 0 <==> first == 0,
            runs@.len() > 0 ==> runs@[0].0 == 0 && runs@.last().1 + 1 == first,
            forall|m: int| 0 <= m < runs@.len() ==> (#[trigger] runs@[m]).0 <= runs@[m].1 < k,
            forall|m: int, n: int| #![trigger runs@[m], runs@[n]] 0 <= m && n == m + 1 && n < runs@.len() ==> runs@[m].1 + 1 == runs@[n].0,
            forall|m: int| 0 <= m < runs@.len() ==> (#[trigger] runs@[m]).0 == 0 || opens@[runs@[m].0 as int],
            forall|m: int, j: int| #![trigger runs@[m], opens@[j]] 0 <= m < runs@.len() && runs@[m].0 < j <= runs@[m].1 ==> !opens@[j],
        decreases n - k,
    {
        if opens[k] {
            runs.push((first, k - 1));
            first = k;
        }
        k = k + 1;
    }
    runs.push((first, n - 1));
    runs
}

/// The analysis windows of a windowed key detection over `len` samples:
/// windows of `window` samples, each starting half a window after the one
/// before, as long as a whole chromagram frame still fits; the last windows
/// are cut off at the end of the audio. Each window is `(start, end)`.
pub fn key_windows(len: usize, window: usize) -> (windows: Vec<(usize, usize)>)
    requires
        window >= 2,
        len + window + KEY_FRAME_SIZE <= usize::MAX,
    ensures
        forall|m: int| 0 <= m < windows@.len() ==> {
            let start = m * (window / 2);
            &&& (#[trigger] windows@[m]).0 == start
            &&& windows@[m].1 == (if start + window <= len { start + window } else { len as int })
            &&& start + KEY_FRAME_SIZE <= len
        },
        windows@.len() * (window / 2) + KEY_FRAME_SIZE > len,
{
    let hop = window / 2;
    let mut windows: Vec<(usize, usize)> = Vec::new();
    let mut pos: usize = 0;
    assert(windows@.len() * hop == 0) by (nonlinear_arith)
        requires windows@.len() == 0;
    while pos + KEY_FRAME_SIZE <= len
        invariant
            hop == window / 2,
            hop >= 1,
            len + window + KEY_FRAME_SIZE <= usize::MAX,
            pos <= len + hop,
            pos == windows@.len() * hop,
            forall|m: int| 0 <= m < windows@.len() ==> {
                let start = m * (window / 2);
                &&& (#[trigger] windows@[m]).0 == start
                &&& windows@[m].1 == (if start + window <= len { start + window } else { len as int })
                &&& start + KEY_FRAME_SIZE <= len
            },
        decreases len + hop - pos,
    {
        let end = if pos + window <= len { pos + window } else { len };
        windows.push((pos, end));
        proof {
            assert((windows@.len() - 1) * hop + hop == windows@.len() * hop) by (nonlinear_arith);
        }
        pos = pos + hop;
    }
    windows
}

/// Where the key found by consecutive analysis windows changes.
pub open spec fn key_changes(keys: Seq<KeyLabel>) -> Seq<bool> {
    Seq::new(keys.len(), |k: int| k > 0 && keys[k] != keys[k - 1])
}

/// Runs of consecutive analysis windows that found the same key: each
/// `(first, last)` covers windows `first..=last`, and a new run starts
/// wherever the key differs from the window before.
pub fn merge_same_key(keys: &[KeyLabel]) -> (runs: Vec<(usize, usize)>)
    ensures
        splits_into_runs(key_changes(keys@), runs@),
{
    let mut opens: Vec<bool> = Vec::new();
    let mut k: usize = 0;
    while k < keys.len()
        invariant
            k <= keys@.len(),
            opens@ =~= Seq::new(k as nat, |j: int| j > 0 && keys@[j] != keys@[j - 1]),
        decreases keys.len() - k,
    {
        opens.push(k > 0 && keys[k] != keys[k - 1]);
        k = k + 1;
    }
    assert(opens@ =~= key_changes(keys@));
    split_runs(&opens)
}

/// Some segment before position `k` is long.
pub open spec fn long_before(short: Seq<bool>, k: int) -> bool {
    exists|j: int| 0 <= j < k && !short[j]
}

/// Where a new group of key segments starts when short segments are
/// absorbed: at every long segment except the first long one.
pub open spec fn absorb_opens(short: Seq<bool>) -> Seq<bool> {
    Seq::new(short.len(), |k: int| !short[k] && long_before(short, k))
}

/// A group of consecutive key segments that become one: segments
/// `first..=last`, carrying the key of segment `kept`.
#[derive(Clone, Copy, Debug, PartialEq, Eq, Structural)]
pub struct AbsorbedSegment {
    pub first: usize,
    pub kept: usize,
    pub last: usize,
}

/// The segment ranges of the groups.
pub open spec fn group_bounds(groups: Seq<AbsorbedSegment>) -> Seq<(usize, usize)> {
    groups.map_values(|g: AbsorbedSegment| (g.first, g.last))
}

/// Every segment of `first..=last` is short.
pub open spec fn all_short(short: Seq<bool>, first: int, last: int) -> bool {
    forall|k: int| first <= k <= last ==> #[trigger] short[k]
}

/// Key segments with the short ones absorbed into their surroundings
/// (`short[k]` tells whether segment `k` lasts under the minimum): each
/// long segment keeps its key and takes over the short segments after it;
/// short segments before the first long one join that long one. Only when
/// every segment is short do they all form one group, keyed by the first.
///
/// So every group carries the key of a long segment, unless the whole
/// track forms a single group of short segments.
pub fn absorb_short_segments(short: &[bool]) -> (groups: Vec<AbsorbedSegment>)
    ensures
        splits_into_runs(absorb_opens(short@), group_bounds(groups@)),
        forall|m: int| 0 <= m < groups@.len() ==> {
            let g = #[trigger] groups@[m];
            &&& g.first <= g.kept <= g.last
            &&& (!short@[g.kept as int] || (g.kept == g.first && all_short(short@, g.first as int, g.last as int)))
        },
        groups@.len() > 1 ==> forall|m: int| 0 <= m < groups@.len() ==> !short@[(#[trigger] groups@[m]).kept as int],
        forall|m: int, k: int| #![trigger groups@[m], short@[k]]
            0 <= m < groups@.len() && groups@[m].first <= k <= groups@[m].last && k != groups@[m].kept ==> short@[k],
        forall|k: int| 0 <= k < short@.len() && !short@[k] ==>
            exists|m: int| 0 <= m < groups@.len() && (#[trigger] groups@[m]).kept == k,
{
    let n = short.len();
    let mut opens: Vec<bool> = Vec::new();
    let mut seen_long = false;
    let mut k: usize = 0;
    while k < n
        invariant
            n == short@.len(),
            k <= n,
            seen_long == long_before(short@, k as int),
            opens@ =~= absorb_opens(short@).take(k as int),
        decreases n - k,
    {
        opens.push(!short[k] && seen_long);
        proof {
            if long_before(short@, k + 1) && !long_before(short@, k as int) {
                let j = choose|j: int| 0 <= j < k + 1 && !short@[j];
                assert(j == k);
            }
            if !short@[k as int] {
                assert(long_before(short@, k + 1));
            }
            if long_before(short@, k as int) {
                let j = choose|j: int| 0 <= j < k && !short@[j];
                assert(0 <= j < k + 1 && !short@[j]);
            }
        }
        seen_long = seen_long || !short[k];
        k = k + 1;
    }
    assert(opens@ =~= absorb_opens(short@));
    let runs = split_runs(&opens);
    let ghost opens_s = absorb_opens(short@);
    let mut groups: Vec<AbsorbedSegment> = Vec::new();
    let mut m: usize = 0;
    while m < runs.len()
        invariant
            n == short@.len(),
            opens_s == absorb_opens(short@),
            splits_into_runs(opens_s, runs@),
            m <= runs@.len(),
            groups@.len() == m,
            forall|i: int| 0 <= i < m ==> (#[trigger] groups@[i]).first == runs@[i].0 && groups@[i].last == runs@[i].1,
            forall|i: int| 0 <= i < m ==> {
                let g = #[trigger] groups@[i];
                &&& g.first <= g.kept <= g.last
                &&& (!short@[g.kept as int] || (g.kept == g.first && all_short(short@, g.first as int, g.last as int)))
            },
            runs@.len() > 1 ==> forall|i: int| 0 <= i < m ==> !short@[(#[trigger] groups@[i]).kept as int],
            forall|i: int, k: int| #![trigger groups@[i], short@[k]]
                0 <= i < m && groups@[i].first <= k <= groups@[i].last && k != groups@[i].kept ==> short@[k],
            forall|k: int| 0 <= k < (if m == 0 { 0 } else { runs@[m - 1].1 + 1 }) && !short@[k] ==>
                exists|i: int| 0 <= i < m && (#[trigger] groups@[i]).kept == k,
        decreases runs@.len() - m,
    {
        let (first, last) = runs[m];
        assert(runs@[m as int] == (first, last));
        let mut kept = first;
        let mut found = false;
        let mut j = first;
        while j <= last
            invariant
                n == short@.len(),
                first <= j <= last + 1,
                last < n,
                found ==> first <= kept < j && !short@[kept as int] && all_short(short@, first as int, kept - 1),
                !found ==> kept == first && all_short(short@, first as int, j - 1),
            decreases last + 1 - j,
        {
            if !found && !short[j] {
                kept = j;
                found = true;
            }
            j = j + 1;
        }
        proof {
            if !found {
                if m > 0 {
                    assert(runs@[m - 1].1 + 1 == runs@[m as int].0);
                    assert(opens_s[first as int]);
                    assert(short@[first as int]);
                }
                if runs@.len() > 1 && m == 0 {
                    let next = runs@[1].0;
                    assert(runs@[0].1 + 1 == runs@[1].0);
                    assert(opens_s[next as int]);
                    let w = choose|w: int| 0 <= w < next && !short@[w];
                    assert(short@[w]);
                }
            }
        }
        proof {
            assert forall|k: int| first <= k <= last && k != kept implies #[trigger] short@[k] by {
                if !short@[k] {
                    if found {
                        if k < kept {
                            assert(short@[k]);
                        }
                        assert(0 <= kept < k && !short@[kept as int]);
                        assert(opens_s[k]);
                        assert(runs@[m as int].0 < k <= runs@[m as int].1);
                        assert(!opens_s[k]);
                    } else {
                        assert(short@[k]);
                    }
                }
            }
            if m > 0 {
                assert(runs@[m - 1].1 + 1 == runs@[m as int].0);
            }
        }
        let ghost old_groups = groups@;
        groups.push(AbsorbedSegment { first, kept, last });
        proof {
            assert forall|k: int| 0 <= k < last + 1 && !short@[k] implies
                exists|i: int| 0 <= i < m + 1 && (#[trigger] groups@[i]).kept == k by {
                if k < first {
                    let i = choose|i: int| 0 <= i < m && (#[trigger] old_groups[i]).kept == k;
                    assert(groups@[i] == old_groups[i]);
                } else {
                    assert(groups@[m as int].kept == k);
                }
            }
            assert forall|i: int, k: int| #![trigger groups@[i], short@[k]]
                0 <= i < m + 1 && groups@[i].first <= k <= groups@[i].last && k != groups@[i].kept implies short@[k] by {
                if i < m {
                    assert(groups@[i] == old_groups[i]);
                }
            }
        }
        m = m + 1;
    }
    proof {
        if runs@.len() > 0 {
            assert(runs@.last().1 == n - 1);
        }
    }
    assert(group_bounds(groups@) =~= runs@);
    groups
}

/// Runs that split positions cover every position up to the end of run
/// `m`.
proof fn lemma_runs_cover(opens: Seq<bool>, runs: Seq<(usize, usize)>, m: int, k: int)
    requires
        splits_into_runs(opens, runs),
        0 <= m < runs.len(),
        0 <= k <= runs[m].1,
    ensures
        exists|i: int| 0 <= i <= m && (#[trigger] runs[i]).0 <= k <= runs[i].1,
    decreases m,
{
    if k < runs[m].0 {
        assert(m > 0);
        assert(runs[m - 1].1 + 1 == runs[m].0);
        lemma_runs_cover(opens, runs, m - 1, k);
        let i = choose|i: int| 0 <= i <= m - 1 && (#[trigger] runs[i]).0 <= k <= runs[i].1;
        assert(0 <= i <= m && runs[i].0 <= k <= runs[i].1);
    } else {
        assert(runs[m].0 <= k <= runs[m].1);
    }
}

/// Absorbing short segments never swallows a long one: every long segment
/// carries its own key as the kept segment of some group, and everything
/// else a group holds is short.
pub proof fn lemma_long_segments_keep_their_key(short: Seq<bool>, groups: Seq<AbsorbedSegment>)
    requires
        splits_into_runs(absorb_opens(short), group_bounds(groups)),
        forall|m: int| 0 <= m < groups.len() ==> {
            let g = #[trigger] groups[m];
            &&& g.first <= g.kept <= g.last
            &&& (!short[g.kept as int] || (g.kept == g.first && all_short(short, g.first as int, g.last as int)))
        },
    ensures
        forall|k: int| 0 <= k < short.len() && !short[k] ==>
            exists|m: int| 0 <= m < groups.len() && (#[trigger] groups[m]).kept == k,
        forall|m: int, k: int| #![trigger groups[m], short[k]]
            0 <= m < groups.len() && groups[m].first <= k <= groups[m].last && k != groups[m].kept ==> short[k],
{
    let opens = absorb_opens(short);
    let runs = group_bounds(groups);
    assert forall|m: int, k: int| #![trigger groups[m], short[k]]
        0 <= m < groups.len() && groups[m].first <= k <= groups[m].last && k != groups[m].kept implies short[k] by {
        let g = groups[m];
        assert(runs[m] == (g.first, g.last));
        if !short[k] && !short[g.kept as int] {
            if k < g.kept {
                assert(0 <= k < g.kept && !short[k]);
                assert(opens[g.kept as int]);
                assert(!opens[g.kept as int]);
            } else {
                assert(0 <= g.kept < k && !short[g.kept as int]);
                assert(opens[k]);
                assert(!opens[k]);
            }
        }
    }
    assert forall|k: int| 0 <= k < short.len() && !short[k] implies
        exists|m: int| 0 <= m < groups.len() && (#[trigger] groups[m]).kept == k by {
        assert(runs.last().1 == short.len() - 1);
        lemma_runs_cover(opens, runs, runs.len() - 1, k);
        let m = choose|m: int| 0 <= m <= runs.len() - 1 && (#[trigger] runs[m]).0 <= k <= runs[m].1;
        assert(runs[m] == (groups[m].first, groups[m].last));
        if groups[m].kept != k {
            assert(short[k]);
        }
    }
}

/// Within a run of windows, every window found the key of the first one.
proof fn lemma_run_keeps_key(keys: Seq<KeyLabel>, first: int, k: int)
    requires
        0 <= first <= k < keys.len(),
        forall|j: int| first < j <= k ==> !(#[trigger] key_changes(keys)[j]),
    ensures
        keys[k] == keys[first],
    decreases k - first,
{
    if k > first {
        assert(!key_changes(keys)[k]);
        lemma_run_keeps_key(keys, first, k - 1);
    }
}

/// Every window of a merged segment found the key of the segment's first
/// window.
pub proof fn lemma_merged_segment_uniform(keys: Seq<KeyLabel>, runs: Seq<(usize, usize)>, m: int, k: int)
    requires
        splits_into_runs(key_changes(keys), runs),
        0 <= m < runs.len(),
        runs[m].0 <= k <= runs[m].1,
    ensures
        keys[k] == keys[runs[m].0 as int],
{
    let first = runs[m].0 as int;
    assert forall|j: int| first < j <= k implies !(#[trigger] key_changes(keys)[j]) by {
        assert(runs[m].0 < j <= runs[m].1);
    }
    lemma_run_keeps_key(keys, first, k);
}

/// Neighbouring merged segments have different keys.
pub proof fn lemma_merged_neighbours_differ(keys: Seq<KeyLabel>, runs: Seq<(usize, usize)>, m: int)
    requires
        splits_into_runs(key_changes(keys), runs),
        0 <= m < runs.len() - 1,
    ensures
        keys[runs[m].0 as int] != keys[runs[m + 1].0 as int],
{
    let next = runs[m + 1].0 as int;
    assert(runs[m].1 + 1 == runs[m + 1].0);
    assert(key_changes(keys)[next]);
    lemma_merged_segment_uniform(keys, runs, m, next - 1);
}

} // verus!
