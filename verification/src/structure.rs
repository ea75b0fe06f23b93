use vstd::prelude::*;
use crate::selection::positions;

verus! {

/// The part of a song that a section plays.
#[derive(Clone, Copy, Debug, PartialEq, Eq, Structural)]
pub enum SectionType {
    Intro,
    Verse,
    Chorus,
    Bridge,
    Outro,
}

// ---------------------------------------------------------------------------
// Section ranges from boundaries
// ---------------------------------------------------------------------------

/// The cut points between sections of an envelope of `len` bars: the start,
/// each boundary (clamped to the envelope), and the end.
pub open spec fn cut_points(boundaries: Seq<usize>, len: usize) -> Seq<usize> {
    seq![0usize] + boundaries.map_values(|b: usize| if b < len { b } else { len }) + seq![len]
}

/// Each pair of consecutive points, as a range.
pub open spec fn consecutive_pairs(points: Seq<usize>) -> Seq<(usize, usize)> {
    Seq::new((points.len() - 1) as nat, |k: int| (points[k], points[k + 1]))
}

/// The ranges between consecutive points that move forward.
pub open spec fn rising_pairs(points: Seq<usize>) -> Seq<(usize, usize)> {
    consecutive_pairs(points).filter(|p: (usize, usize)| p.0 < p.1)
}

/// Splits an envelope of `len` bars into section ranges `(start, end)` at
/// the given boundaries: one range between each two consecutive cut points
/// (start, clamped boundaries, end), keeping those that move forward.
pub fn section_ranges(boundaries: &[usize], len: usize) -> (ranges: Vec<(usize, usize)>)
    ensures
        ranges@ == rising_pairs(cut_points(boundaries@, len)),
{
    let ghost cuts = cut_points(boundaries@, len);
    let ghost pred = |p: (usize, usize)| p.0 < p.1;
    let mut ranges: Vec<(usize, usize)> = Vec::new();
    let mut prev: usize = 0;
    let n = boundaries.len();
    let mut i: usize = 0;
    proof {
        assert(cuts.len() == n + 2);
        assert(consecutive_pairs(cuts.take(1)) =~= Seq::<(usize, usize)>::empty());
        assert(Seq::<(usize, usize)>::empty().filter(pred) =~= Seq::<(usize, usize)>::empty()) by {
            reveal(Seq::filter);
        }
    }
    while i < n
        invariant
            n == boundaries@.len(),
            cuts == cut_points(boundaries@, len),
            cuts.len() == n + 2,
            pred == (|p: (usize, usize)| p.0 < p.1),
            i <= n,
            prev == cuts[i as int],
            ranges@ == consecutive_pairs(cuts.take(i + 1)).filter(pred),
        decreases n - i,
    {
        let b = if boundaries[i] < len { boundaries[i] } else { len };
        proof {
            assert(cuts[i + 1] == b);
            assert(consecutive_pairs(cuts.take(i + 2)) =~= consecutive_pairs(cuts.take(i + 1)).push((prev, b)));
            consecutive_pairs(cuts.take(i + 1)).lemma_filter_push((prev, b), pred);
        }
        if b > prev {
            ranges.push((prev, b));
        }
        prev = b;
        i = i + 1;
    }
    proof {
        assert(cuts[n + 1] == len);
        assert(cuts.take(n + 2) =~= cuts);
        assert(consecutive_pairs(cuts) =~= consecutive_pairs(cuts.take(n + 1)).push((prev, len)));
        consecutive_pairs(cuts.take(n + 1)).lemma_filter_push((prev, len), pred);
    }
    if prev < len {
        ranges.push((prev, len));
    }
    ranges
}

/// Ranges `r` run without gaps or overlaps from `from` to `to`, each moving
/// forward.
pub open spec fn tiles(r: Seq<(usize, usize)>, from: int, to: int) -> bool {
    &&& r.len() > 0
    &&& r[0].0 == from
    &&& r.last().1 == to
    &&& forall|m: int| 0 <= m < r.len() ==> (#[trigger] r[m]).0 < r[m].1
    &&& forall|m: int, n: int| #![trigger r[m], r[n]] 0 <= m && n == m + 1 && n < r.len() ==> r[m].1 == r[n].0
}

/// Between the points of a non-decreasing sequence, the forward ranges tile
/// the stretch from its first point to its last.
proof fn lemma_rising_pairs_tile(c: Seq<usize>)
    requires
        c.len() >= 1,
        forall|i: int, j: int| 0 <= i <= j < c.len() ==> c[i] <= c[j],
    ensures
        c[0] == c.last() ==> rising_pairs(c).len() == 0,
        c[0] < c.last() ==> tiles(rising_pairs(c), c[0] as int, c.last() as int),
    decreases c.len(),
{
    let pred = |p: (usize, usize)| p.0 < p.1;
    if c.len() == 1 {
        assert(consecutive_pairs(c) =~= Seq::<(usize, usize)>::empty());
        reveal(Seq::filter);
    } else {
        let d = c.drop_last();
        lemma_rising_pairs_tile(d);
        assert(consecutive_pairs(c) =~= consecutive_pairs(d).push((d.last(), c.last())));
        consecutive_pairs(d).lemma_filter_push((d.last(), c.last()), pred);
        assert(c[0] <= d.last() <= c.last());
    }
}

/// For boundaries in increasing order, the section ranges of an envelope of
/// `len > 0` bars tile it from bar 0 to bar `len`; an empty envelope has no
/// sections.
pub proof fn lemma_section_ranges_tile(boundaries: Seq<usize>, len: usize)
    requires
        forall|i: int, j: int| 0 <= i <= j < boundaries.len() ==> boundaries[i] <= boundaries[j],
    ensures
        len == 0 ==> rising_pairs(cut_points(boundaries, len)).len() == 0,
        len > 0 ==> tiles(rising_pairs(cut_points(boundaries, len)), 0, len as int),
{
    let c = cut_points(boundaries, len);
    assert forall|i: int, j: int| 0 <= i <= j < c.len() implies c[i] <= c[j] by {
        if 0 < i && j < c.len() - 1 {
            assert(boundaries[i - 1] <= boundaries[j - 1]);
        }
    }
    lemma_rising_pairs_tile(c);
}

// ---------------------------------------------------------------------------
// Boundaries from peaks of the energy-change signal
// ---------------------------------------------------------------------------

/// Bars by which a boundary lies after the peak of the energy change that
/// marks it (half the look-ahead of the change signal).
pub const BOUNDARY_OFFSET: usize = 2;

/// Fewest bars between two boundaries.
pub const MIN_SECTION_BARS: usize = 6;

/// Peak `i` of the change signal can mark a boundary: it is a peak and
/// lies strictly inside the signal.
pub open spec fn usable_peak(peaks: Seq<bool>, i: int) -> bool {
    1 <= i < peaks.len() - 1 && peaks[i]
}

/// The peak marked by boundary `b` blocks the later peak `i`: the boundary
/// that `i` would mark lies fewer than `MIN_SECTION_BARS` bars after `b`.
pub open spec fn blocked_by(b: int, i: int) -> bool {
    b - BOUNDARY_OFFSET < i && i + BOUNDARY_OFFSET < b + MIN_SECTION_BARS
}

/// Section boundaries from the peaks of the energy-change signal
/// (`peaks[i]` tells whether sample `i` of the signal is a peak): scanning
/// from the start, each usable peak marks a boundary `BOUNDARY_OFFSET` bars
/// after it, unless that boundary would lie fewer than `MIN_SECTION_BARS`
/// bars after the previous boundary.
pub fn space_boundaries(peaks: &[bool]) -> (boundaries: Vec<usize>)
    ensures
        forall|k: int| 0 <= k < boundaries@.len() ==>
            usable_peak(peaks@, (#[trigger] boundaries@[k]) - BOUNDARY_OFFSET),
        forall|k: int, l: int| #![trigger boundaries@[k], boundaries@[l]] 0 <= k && l == k + 1 && l < boundaries@.len() ==>
            boundaries@[k] + MIN_SECTION_BARS <= boundaries@[l],
        forall|i: int| #[trigger] usable_peak(peaks@, i) ==>
            exists|k: int| 0 <= k < boundaries@.len() && (boundaries@[k] == i + BOUNDARY_OFFSET
                || blocked_by(boundaries@[k] as int, i)),
{
    let mut boundaries: Vec<usize> = Vec::new();
    let n = peaks.len();
    if n < 2 {
        return boundaries;
    }
    let mut i: usize = 1;
    while i < n - 1
        invariant
            n == peaks@.len(),
            n >= 2,
            1 <= i <= n - 1,
            forall|k: int| 0 <= k < boundaries@.len() ==>
                usable_peak(peaks@, (#[trigger] boundaries@[k]) - BOUNDARY_OFFSET)
                && boundaries@[k] - BOUNDARY_OFFSET < i,
            forall|k: int, l: int| #![trigger boundaries@[k], boundaries@[l]] 0 <= k && l == k + 1 && l < boundaries@.len() ==>
                boundaries@[k] + MIN_SECTION_BARS <= boundaries@[l],
            forall|j: int| #[trigger] usable_peak(peaks@, j) && j < i ==>
                exists|k: int| 0 <= k < boundaries@.len() && (boundaries@[k] == j + BOUNDARY_OFFSET
                    || blocked_by(boundaries@[k] as int, j)),
        decreases n - 1 - i,
    {
        let ghost old_b = boundaries@;
        if peaks[i] {
            assert(usable_peak(peaks@, i as int));
            let candidate = i + BOUNDARY_OFFSET;
            let accept = if boundaries.len() == 0 {
                true
            } else {
                let last = boundaries[boundaries.len() - 1];
                candidate - last >= MIN_SECTION_BARS
            };
            if accept {
                boundaries.push(candidate);
            }
            proof {
                assert forall|j: int| #[trigger] usable_peak(peaks@, j) && j < i + 1 implies
                    exists|k: int| 0 <= k < boundaries@.len() && (boundaries@[k] == j + BOUNDARY_OFFSET
                        || blocked_by(boundaries@[k] as int, j)) by {
                    if j == i {
                        if accept {
                            assert(boundaries@[boundaries@.len() - 1] == j + BOUNDARY_OFFSET);
                        } else {
                            assert(blocked_by(boundaries@[boundaries@.len() - 1] as int, j));
                        }
                    } else {
                        let k = choose|k: int| 0 <= k < old_b.len() && (old_b[k] == j + BOUNDARY_OFFSET
                            || blocked_by(old_b[k] as int, j));
                        assert(boundaries@[k] == old_b[k]);
                    }
                }
            }
        }
        i = i + 1;
    }
    boundaries
}

// ---------------------------------------------------------------------------
// Labelling sections
// ---------------------------------------------------------------------------

/// What the energy and length of a section say about it, measured against
/// the whole song.
#[derive(Clone, Copy, Debug, PartialEq, Eq, Structural)]
pub struct SectionTraits {
    /// Quiet and short enough to be an intro (below 70% of the mean energy,
    /// under 20 seconds).
    pub intro_like: bool,
    /// Long enough to be an outro (over 10 seconds).
    pub outro_like: bool,
    /// Loud enough to be a chorus (above 110% of the mean, or above 85% of
    /// the loudest section).
    pub loud: bool,
    /// Quiet enough to be a verse (below 90% of the mean).
    pub soft: bool,
}

/// A section's part, and which occurrence of that part it is (counted for
/// verses and choruses, `1` for the other parts).
#[derive(Clone, Copy, Debug, PartialEq, Eq, Structural)]
pub struct SectionLabel {
    pub section_type: SectionType,
    pub occurrence: u32,
}

/// How many of `labels` are of part `t`.
pub open spec fn part_count(labels: Seq<SectionLabel>, t: SectionType) -> nat
    decreases labels.len(),
{
    if labels.len() == 0 {
        0
    } else {
        part_count(labels.drop_last(), t) + if labels.last().section_type == t { 1nat } else { 0nat }
    }
}

/// The part of a section: an intro-like first section is the intro, a long
/// last section the outro; otherwise a loud section is a chorus and a soft
/// one a verse; a section that is neither is a bridge once both verses and
/// choruses have been heard, and a verse before that.
pub open spec fn section_part(first: bool, last: bool, traits: SectionTraits, verses: nat, choruses: nat) -> SectionType {
    if first && traits.intro_like {
        SectionType::Intro
    } else if last && traits.outro_like {
        SectionType::Outro
    } else if traits.loud {
        SectionType::Chorus
    } else if traits.soft {
        SectionType::Verse
    } else if verses > 0 && choruses > 0 {
        SectionType::Bridge
    } else {
        SectionType::Verse
    }
}

/// The label of section `k` of `labels`, given the traits of the sections.
pub open spec fn labelled_as(traits: Seq<SectionTraits>, labels: Seq<SectionLabel>, k: int) -> bool {
    let before = labels.take(k);
    let part = section_part(k == 0, k == traits.len() - 1, traits[k],
        part_count(before, SectionType::Verse), part_count(before, SectionType::Chorus));
    &&& labels[k].section_type == part
    &&& labels[k].occurrence == (if part == SectionType::Verse || part == SectionType::Chorus {
        part_count(before, part) + 1
    } else {
        1
    })
}

/// Labels the sections of a song, in order, from their traits.
pub fn label_sections(traits: &[SectionTraits]) -> (labels: Vec<SectionLabel>)
    requires
        traits@.len() < u32::MAX,
    ensures
        labels@.len() == traits@.len(),
        forall|k: int| 0 <= k < labels@.len() ==> #[trigger] labelled_as(traits@, labels@, k),
{
    let n = traits.len();
    let mut labels: Vec<SectionLabel> = Vec::new();
    let mut verses: u32 = 0;
    let mut choruses: u32 = 0;
    let mut k: usize = 0;
    while k < n
        invariant
            n == traits@.len(),
            n < u32::MAX,
            k <= n,
            labels@.len() == k,
            verses == part_count(labels@, SectionType::Verse),
            choruses == part_count(labels@, SectionType::Chorus),
            verses <= k,
            choruses <= k,
            forall|j: int| 0 <= j < k ==> #[trigger] labelled_as(traits@, labels@, j),
        decreases n - k,
    {
        let t = traits[k];
        let part = if k == 0 && t.intro_like {
            SectionType::Intro
        } else if k == n - 1 && t.outro_like {
            SectionType::Outro
        } else if t.loud {
            choruses = choruses + 1;
            SectionType::Chorus
        } else if t.soft {
            verses = verses + 1;
            SectionType::Verse
        } else if verses > 0 && choruses > 0 {
            SectionType::Bridge
        } else {
            verses = verses + 1;
            SectionType::Verse
        };
        let occurrence = match part {
            SectionType::Chorus => choruses,
            SectionType::Verse => verses,
            _ => 1,
        };
        let ghost old_labels = labels@;
        labels.push(SectionLabel { section_type: part, occurrence });
        proof {
            assert(labels@.drop_last() =~= old_labels);
            assert(labels@.take(k as int) =~= old_labels);
            assert forall|j: int| 0 <= j < k + 1 implies #[trigger] labelled_as(traits@, labels@, j) by {
                if j < k {
                    assert(labelled_as(traits@, old_labels, j));
                    assert(labels@.take(j) =~= old_labels.take(j));
                    assert(labels@[j] == old_labels[j]);
                }
            }
        }
        k = k + 1;
    }
    labels
}

/// Some section before section `k` is labelled with part `t`.
pub open spec fn heard_before(labels: Seq<SectionLabel>, k: int, t: SectionType) -> bool {
    exists|j: int| 0 <= j < k && labels[j].section_type == t
}

/// The count of a part among the first `k` labels is positive exactly when
/// that part has been heard before section `k`.
proof fn lemma_part_count_heard(labels: Seq<SectionLabel>, k: int, t: SectionType)
    requires
        0 <= k <= labels.len(),
    ensures
        (part_count(labels.take(k), t) > 0) == heard_before(labels, k, t),
    decreases k,
{
    if k > 0 {
        lemma_part_count_heard(labels, k - 1, t);
        assert(labels.take(k).drop_last() =~= labels.take(k - 1));
        assert(labels.take(k).last() == labels[k - 1]);
        if heard_before(labels, k, t) && !heard_before(labels, k - 1, t) {
            let j = choose|j: int| 0 <= j < k && labels[j].section_type == t;
            assert(j == k - 1);
        }
        if labels[k - 1].section_type == t {
            assert(heard_before(labels, k, t));
        }
        if heard_before(labels, k - 1, t) {
            let j = choose|j: int| 0 <= j < k - 1 && labels[j].section_type == t;
            assert(0 <= j < k && labels[j].section_type == t);
        }
    }
}

/// What each section is called, in terms of its traits and of the labels
/// before it: an intro-like first section is the intro; otherwise a long
/// last section is the outro; otherwise a loud section is a chorus and a
/// soft one a verse; a section that is none of these is a bridge exactly
/// when both a verse and a chorus have been heard before it, and a verse
/// otherwise. A verse or chorus is one more occurrence than the verses or
/// choruses before it; every other part is occurrence 1.
pub proof fn lemma_section_parts(traits: Seq<SectionTraits>, labels: Seq<SectionLabel>, k: int)
    requires
        labels.len() == traits.len(),
        forall|i: int| 0 <= i < labels.len() ==> #[trigger] labelled_as(traits, labels, i),
        0 <= k < labels.len(),
    ensures
        ({
            let t = traits[k];
            let part = labels[k].section_type;
            let intro = k == 0 && t.intro_like;
            let outro = k == labels.len() - 1 && t.outro_like;
            &&& intro ==> part == SectionType::Intro
            &&& !intro && outro ==> part == SectionType::Outro
            &&& !intro && !outro && t.loud ==> part == SectionType::Chorus
            &&& !intro && !outro && !t.loud && t.soft ==> part == SectionType::Verse
            &&& !intro && !outro && !t.loud && !t.soft ==> (
                if heard_before(labels, k, SectionType::Verse) && heard_before(labels, k, SectionType::Chorus) {
                    part == SectionType::Bridge
                } else {
                    part == SectionType::Verse
                })
        }),
        labels[k].section_type == SectionType::Verse || labels[k].section_type == SectionType::Chorus
            ==> labels[k].occurrence == part_count(labels.take(k), labels[k].section_type) + 1,
        labels[k].section_type != SectionType::Verse && labels[k].section_type != SectionType::Chorus
            ==> labels[k].occurrence == 1,
{
    assert(labelled_as(traits, labels, k));
    lemma_part_count_heard(labels, k, SectionType::Verse);
    lemma_part_count_heard(labels, k, SectionType::Chorus);
}

/// Label counts only grow along a song.
proof fn lemma_part_count_monotone(labels: Seq<SectionLabel>, i: int, j: int, t: SectionType)
    requires
        0 <= i <= j <= labels.len(),
    ensures
        part_count(labels.take(i), t) <= part_count(labels.take(j), t),
    decreases j - i,
{
    if i < j {
        lemma_part_count_monotone(labels, i, j - 1, t);
        assert(labels.take(j).drop_last() =~= labels.take(j - 1));
    }
}

/// Each chorus is a later occurrence than every chorus before it, and the
/// same holds of verses: repeated parts escalate.
pub proof fn lemma_occurrences_escalate(traits: Seq<SectionTraits>, labels: Seq<SectionLabel>, i: int, j: int)
    requires
        labels.len() == traits.len(),
        forall|k: int| 0 <= k < labels.len() ==> #[trigger] labelled_as(traits, labels, k),
        0 <= i < j < labels.len(),
        labels[i].section_type == labels[j].section_type,
        labels[i].section_type == SectionType::Chorus || labels[i].section_type == SectionType::Verse,
    ensures
        labels[i].occurrence < labels[j].occurrence,
{
    let t = labels[i].section_type;
    assert(labelled_as(traits, labels, i));
    assert(labelled_as(traits, labels, j));
    lemma_part_count_monotone(labels, i + 1, j, t);
    assert(labels.take(i + 1).drop_last() =~= labels.take(i));
}

// ---------------------------------------------------------------------------
// Bars of the beat grid
// ---------------------------------------------------------------------------

/// The first beat of bar `bar`, given the bar number of each beat; `None`
/// when no beat lies in that bar.
pub fn first_beat_of_bar(bar_numbers: &[u32], bar: usize) -> (beat: Option<usize>)
    ensures
        match beat {
            Some(k) => k < bar_numbers@.len() && bar_numbers@[k as int] as int == bar as int
                && forall|j: int| 0 <= j < k ==> bar_numbers@[j] as int != bar as int,
            None => forall|j: int| 0 <= j < bar_numbers@.len() ==> bar_numbers@[j] as int != bar as int,
        },
{
    let mut k: usize = 0;
    while k < bar_numbers.len()
        invariant
            k <= bar_numbers@.len(),
            forall|j: int| 0 <= j < k ==> bar_numbers@[j] as int != bar as int,
        decreases bar_numbers.len() - k,
    {
        if bar_numbers[k] as usize == bar {
            return Some(k);
        }
        k = k + 1;
    }
    None
}

/// A bar of the beat grid, by the beats that bound it: `start` is the beat
/// it starts on (`None`: the start of the song), `end` the beat it ends on
/// (`None`: one beat period after the last beat).
#[derive(Clone, Copy, Debug, PartialEq, Eq, Structural)]
pub struct BarSpan {
    pub start: Option<usize>,
    pub end: Option<usize>,
}

/// The bar number in force before beat `k`: that of the beat before it, or
/// bar 0 before the first beat.
pub open spec fn bar_before(bar_numbers: Seq<u32>, k: int) -> u32 {
    if k == 0 { 0 } else { bar_numbers[k - 1] }
}

/// Beat `k` starts a new bar.
pub open spec fn starts_bar(bar_numbers: Seq<u32>, k: usize) -> bool {
    bar_numbers[k as int] != bar_before(bar_numbers, k as int)
}

/// The beats on which the bar number changes, in order.
pub open spec fn bar_changes(bar_numbers: Seq<u32>) -> Seq<usize> {
    positions(bar_numbers.len()).filter(|k: usize| starts_bar(bar_numbers, k))
}

/// The bar closed by the `m`-th change of bar: from the previous change
/// (or the song start) to that change.
pub open spec fn closed_bar(changes: Seq<usize>, m: int) -> BarSpan {
    BarSpan { start: if m == 0 { None } else { Some(changes[m - 1]) }, end: Some(changes[m]) }
}

/// A closed bar counts when it starts after time zero, or when it precedes
/// the first numbered bar (the bar in force before it is bar 0).
pub open spec fn bar_counts(bar_numbers: Seq<u32>, after_zero: Seq<bool>, span: BarSpan) -> bool {
    ||| (match span.start { Some(s) => after_zero[s as int], None => false })
    ||| (match span.end { Some(e) => bar_before(bar_numbers, e as int) == 0, None => false })
}

/// The bars of a beat grid: each change of bar number closes the bar
/// before it, which counts unless it starts at time zero after bar 0; the
/// last bar runs from the last change to one beat after the last beat.
pub open spec fn bar_spans_of(bar_numbers: Seq<u32>, after_zero: Seq<bool>) -> Seq<BarSpan> {
    let changes = bar_changes(bar_numbers);
    let closed = Seq::new(changes.len(), |m: int| closed_bar(changes, m))
        .filter(|span: BarSpan| bar_counts(bar_numbers, after_zero, span));
    if bar_numbers.len() == 0 {
        closed
    } else {
        closed.push(BarSpan { start: if changes.len() == 0 { None } else { Some(changes.last()) }, end: None })
    }
}

/// The bars of a beat grid, given the bar number of each beat and whether
/// each beat falls after time zero.
pub fn bar_spans(bar_numbers: &[u32], after_zero: &[bool]) -> (spans: Vec<BarSpan>)
    requires
        after_zero@.len() == bar_numbers@.len(),
    ensures
        spans@ == bar_spans_of(bar_numbers@, after_zero@),
{
    let n = bar_numbers.len();
    let ghost counts = |span: BarSpan| bar_counts(bar_numbers@, after_zero@, span);
    let ghost is_start = |k: usize| starts_bar(bar_numbers@, k);
    let ghost mut changes: Seq<usize> = Seq::empty();
    let mut spans: Vec<BarSpan> = Vec::new();
    let mut current: u32 = 0;
    let mut start: Option<usize> = None;
    let mut k: usize = 0;
    proof {
        assert(positions(0) =~= Seq::<usize>::empty());
        reveal(Seq::filter);
        assert(Seq::new(0, |m: int| closed_bar(changes, m)) =~= Seq::<BarSpan>::empty());
    }
    while k < n
        invariant
            n == bar_numbers@.len(),
            n == after_zero@.len(),
            k <= n,
            counts == (|span: BarSpan| bar_counts(bar_numbers@, after_zero@, span)),
            is_start == (|k: usize| starts_bar(bar_numbers@, k)),
            current == bar_before(bar_numbers@, k as int),
            changes == positions(k as nat).filter(is_start),
            forall|m: int| 0 <= m < changes.len() ==> (#[trigger] changes[m]) < k,
            start == (if changes.len() == 0 { None } else { Some(changes.last()) }),
            spans@ == Seq::new(changes.len(), |m: int| closed_bar(changes, m)).filter(counts),
        decreases n - k,
    {
        proof {
            assert(positions((k + 1) as nat) =~= positions(k as nat).push(k));
            positions(k as nat).lemma_filter_push(k, is_start);
        }
        if bar_numbers[k] != current {
            let counted = match start {
                Some(s) => after_zero[s],
                None => false,
            } || current == 0;
            let span = BarSpan { start, end: Some(k) };
            proof {
                let old_changes = changes;
                changes = changes.push(k);
                assert(closed_bar(changes, old_changes.len() as int) == span);
                assert(Seq::new(changes.len(), |m: int| closed_bar(changes, m)) =~= Seq::new(
                    old_changes.len(),
                    |m: int| closed_bar(old_changes, m),
                ).push(span));
                Seq::new(old_changes.len(), |m: int| closed_bar(old_changes, m)).lemma_filter_push(span, counts);
                assert(counts(span) == counted);
            }
            if counted {
                spans.push(span);
            }
            current = bar_numbers[k];
            start = Some(k);
        }
        k = k + 1;
    }
    proof {
        assert(positions(n as nat) == positions(bar_numbers@.len()));
    }
    if n > 0 {
        spans.push(BarSpan { start, end: None });
    }
    spans
}

} // verus!
