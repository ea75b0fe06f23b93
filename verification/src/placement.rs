use vstd::prelude::*;
use crate::catalog::{Category, SampleInfo, sample_pitch_valid};

verus! {

/// Distance from pitch class `from` up to pitch class `to`, in `0..12`.
pub open spec fn interval_up(from: int, to: int) -> int {
    (to - from) % 12
}

/// Distance between two pitch classes around the circle of semitones.
pub open spec fn circle_distance(a: int, b: int) -> int {
    let up = interval_up(a, b);
    if up <= 12 - up { up } else { 12 - up }
}

/// The fifth above a root, as a pitch class.
pub open spec fn fifth_of(root: int) -> int {
    (root + 7) % 12
}

/// Reduction modulo twelve of a value near the pitch-class range.
proof fn lemma_mod12(x: int)
    requires
        -12 <= x < 24,
    ensures
        x % 12 == (if x < 0 { x + 12 } else if x < 12 { x } else { x - 12 }),
{
    if x < 0 {
        assert((x + 12) % 12 == x + 12);
        assert(x % 12 == (x + 12) % 12) by (nonlinear_arith)
            requires -12 <= x < 0;
    } else if x >= 12 {
        assert(x % 12 == x - 12) by (nonlinear_arith)
            requires 12 <= x < 24;
    }
}

/// `shift` moves a sample sung at pitch class `pc` onto the root or the
/// fifth of the key with root `root`: by at most four semitones, onto
/// whichever of the two targets is nearer, and not at all when neither lies
/// within four semitones.
pub open spec fn is_key_shift(root: int, pc: int, shift: int) -> bool {
    let d_root = circle_distance(pc, root);
    let d_fifth = circle_distance(pc, fifth_of(root));
    let landing = (pc + shift) % 12;
    &&& -4 <= shift <= 4
    &&& if d_root <= 4 || d_fifth <= 4 {
        &&& (landing == root || landing == fifth_of(root))
        &&& (if shift >= 0 { shift } else { -shift }) == (if d_root <= d_fifth { d_root } else { d_fifth })
    } else {
        shift == 0
    }
}

/// Semitones that move a sample sung at pitch class `sample_pc` onto the
/// root or the fifth of the key with root `root` (see `is_key_shift`).
pub fn pitch_shift_toward_key(root: u8, sample_pc: u8) -> (shift: i8)
    requires
        root < 12,
        sample_pc < 12,
    ensures
        is_key_shift(root as int, sample_pc as int, shift as int),
{
    proof {
        lemma_mod12(root + 7);
        lemma_mod12(root - sample_pc);
        lemma_mod12(root - sample_pc + 12);
        lemma_mod12(fifth_of(root as int) - sample_pc);
        lemma_mod12(fifth_of(root as int) - sample_pc + 12);
        lemma_mod12(sample_pc - root);
        lemma_mod12(root - fifth_of(root as int));
        lemma_mod12(sample_pc - fifth_of(root as int));
    }
    let fifth: u8 = (root + 7) % 12;
    let shift_to_root: i8 = ((root as i8 - sample_pc as i8) + 12) % 12;
    let shift_to_fifth: i8 = ((fifth as i8 - sample_pc as i8) + 12) % 12;
    let s1: i8 = if shift_to_root > 6 { shift_to_root - 12 } else { shift_to_root };
    let s2: i8 = if shift_to_fifth > 6 { shift_to_fifth - 12 } else { shift_to_fifth };
    let a1: i8 = if s1 < 0 { -s1 } else { s1 };
    let a2: i8 = if s2 < 0 { -s2 } else { s2 };
    proof {
        lemma_mod12(sample_pc + s1);
        lemma_mod12(sample_pc + s2);
    }
    if a1 <= a2 && a1 <= 4 {
        s1
    } else if a2 <= 4 {
        s2
    } else {
        0
    }
}

/// For a key root and a sample pitch class there is exactly one key shift.
pub proof fn lemma_key_shift_unique(root: int, pc: int, a: int, b: int)
    requires
        0 <= root < 12,
        0 <= pc < 12,
        is_key_shift(root, pc, a),
        is_key_shift(root, pc, b),
    ensures
        a == b,
{
    lemma_mod12(pc + a);
    lemma_mod12(pc + b);
    lemma_mod12(root + 7);
    lemma_mod12(root - pc);
    lemma_mod12(pc - root);
    lemma_mod12(fifth_of(root) - pc);
    lemma_mod12(pc - fifth_of(root));
}

/// The root and the fifth of a key split the circle of semitones into arcs
/// of five and seven, so every pitch class lies within three semitones of
/// one of them: a key shift always lands a sample on the root or the fifth
/// and never moves it by more than three semitones.
pub proof fn lemma_key_shift_always_lands(root: int, pc: int, shift: int)
    requires
        0 <= root < 12,
        0 <= pc < 12,
        is_key_shift(root, pc, shift),
    ensures
        (pc + shift) % 12 == root || (pc + shift) % 12 == fifth_of(root),
        -3 <= shift <= 3,
{
    lemma_mod12(root + 7);
    lemma_mod12(root - pc);
    lemma_mod12(pc - root);
    lemma_mod12(fifth_of(root) - pc);
    lemma_mod12(pc - fifth_of(root));
    lemma_mod12(pc + shift);
}

/// The shift applied to a sample placed in a key with root `key_root`
/// (`None` where no key is known): pitched samples with a recorded pitch
/// class move onto the key's root or fifth; all others stay as they are.
pub fn sample_pitch_shift(sample: &SampleInfo, key_root: Option<u8>) -> (shift: i8)
    requires
        sample_pitch_valid(*sample),
        key_root matches Some(r) ==> r < 12,
    ensures
        (match (sample.pitched, sample.estimated_pitch_class, key_root) {
            (true, Some(pc), Some(root)) => is_key_shift(root as int, pc as int, shift as int),
            _ => shift == 0,
        }),
{
    if sample.pitched {
        match sample.estimated_pitch_class {
            Some(pc) => match key_root {
                Some(root) => pitch_shift_toward_key(root, pc),
                None => 0,
            },
            None => 0,
        }
    } else {
        0
    }
}

/// Where in the beat a candidate slot sits.
#[derive(Clone, Copy, Debug, PartialEq, Eq, Structural)]
pub enum SlotPosition {
    /// On the beat itself.
    OnBeat,
    /// The "&" halfway to the next beat.
    Upbeat,
    /// The sixteenth-note "e" a quarter of the way to the next beat.
    SixteenthE,
}

/// A candidate place for an ad-lib: where it sits relative to its beat,
/// the kinds of ad-lib that suit it, and how strongly it sits on the
/// rhythm, in hundredths.
#[derive(Debug)]
pub struct Slot {
    pub position: SlotPosition,
    pub categories: Vec<Category>,
    pub strength_percent: u8,
}

/// The plain content of a slot.
pub open spec fn slot_view(s: Slot) -> (SlotPosition, Seq<Category>, nat) {
    (s.position, s.categories@, s.strength_percent as nat)
}

/// `seq![x]` when `c` holds, the empty sequence otherwise.
pub open spec fn seq_if<A>(c: bool, x: A) -> Seq<A> {
    if c { seq![x] } else { Seq::empty() }
}

/// The slots that a beat offers, in order: shouts and exclamations on
/// beats 1 and 3, grunts on the backbeats 2 and 4, hee-hees on the "&" of
/// the backbeats, moans on the "&" of 4, hee-hees and exclamations on the
/// "&" of 1 and 3, and, at fast tempos, hee-hees and grunts on the
/// sixteenth "e" of every beat.
pub open spec fn beat_slot_plan(beat_in_bar: u8, sixteenths: bool) -> Seq<(SlotPosition, Seq<Category>, nat)> {
    let down = beat_in_bar == 1 || beat_in_bar == 3;
    let back = beat_in_bar == 2 || beat_in_bar == 4;
    seq_if(down, (SlotPosition::OnBeat, seq![Category::Shout, Category::Exclamation, Category::Shamone],
        if beat_in_bar == 1 { 90nat } else { 70nat }))
    + seq_if(back, (SlotPosition::OnBeat, seq![Category::Grunt, Category::VocalPercussion], 60nat))
    + seq_if(back, (SlotPosition::Upbeat, seq![Category::HeeHee, Category::Exclamation], 50nat))
    + seq_if(beat_in_bar == 4, (SlotPosition::Upbeat, seq![Category::Moan], 40nat))
    + seq_if(down, (SlotPosition::Upbeat, seq![Category::HeeHee, Category::Exclamation], 30nat))
    + seq_if(sixteenths, (SlotPosition::SixteenthE, seq![Category::HeeHee, Category::Grunt], 15nat))
}

/// What the slots of a beat are, slot by slot: each downbeat (beats 1 and
/// 3) offers shouts, exclamations and "shamone" on the beat (strength 90 on
/// beat 1, 70 on beat 3) and hee-hees or exclamations on its "&" (30); each
/// backbeat (2 and 4) offers grunts or vocal percussion on the beat (60)
/// and hee-hees or exclamations on its "&" (50), and beat 4 also moans on
/// its "&" (40); any other position offers nothing of these; at fast tempos
/// every beat ends with hee-hees or grunts on its sixteenth "e" (15).
pub open spec fn beat_offers(beat_in_bar: u8, sixteenths: bool, slots: Seq<(SlotPosition, Seq<Category>, nat)>) -> bool {
    let down = beat_in_bar == 1 || beat_in_bar == 3;
    let back = beat_in_bar == 2 || beat_in_bar == 4;
    let main = if down { 2int } else if beat_in_bar == 2 { 2int } else if beat_in_bar == 4 { 3int } else { 0int };
    &&& slots.len() == main + if sixteenths { 1int } else { 0int }
    &&& down ==> {
        &&& slots[0].0 == SlotPosition::OnBeat
        &&& slots[0].1 == seq![Category::Shout, Category::Exclamation, Category::Shamone]
        &&& slots[0].2 == (if beat_in_bar == 1 { 90nat } else { 70nat })
        &&& slots[1] == (SlotPosition::Upbeat, seq![Category::HeeHee, Category::Exclamation], 30nat)
    }
    &&& back ==> {
        &&& slots[0] == (SlotPosition::OnBeat, seq![Category::Grunt, Category::VocalPercussion], 60nat)
        &&& slots[1] == (SlotPosition::Upbeat, seq![Category::HeeHee, Category::Exclamation], 50nat)
    }
    &&& beat_in_bar == 4 ==> slots[2] == (SlotPosition::Upbeat, seq![Category::Moan], 40nat)
    &&& sixteenths ==> slots[main] == (SlotPosition::SixteenthE, seq![Category::HeeHee, Category::Grunt], 15nat)
}

/// The slot plan of every beat is what `beat_offers` describes.
pub proof fn lemma_beat_slot_plan_offers(beat_in_bar: u8, sixteenths: bool)
    ensures
        beat_offers(beat_in_bar, sixteenths, beat_slot_plan(beat_in_bar, sixteenths)),
{
    let p = beat_slot_plan(beat_in_bar, sixteenths);
    if beat_in_bar == 1 || beat_in_bar == 3 {
        assert(p[0].1 =~= seq![Category::Shout, Category::Exclamation, Category::Shamone]);
    }
}

/// The two downbeats of a bar offer the same slots, except that the
/// shouts on beat 1 sit more strongly (90) than those on beat 3 (70).
pub proof fn lemma_downbeats_differ_only_in_strength(sixteenths: bool)
    ensures
        ({
            let one = beat_slot_plan(1, sixteenths);
            let three = beat_slot_plan(3, sixteenths);
            &&& one.len() == three.len()
            &&& one[0].0 == three[0].0 && one[0].1 == three[0].1
            &&& one[0].2 == 90 && three[0].2 == 70
            &&& forall|k: int| 1 <= k < one.len() ==> one[k] == three[k]
            &&& one[0].1 == seq![Category::Shout, Category::Exclamation, Category::Shamone]
        }),
{
    lemma_beat_slot_plan_offers(1, sixteenths);
    lemma_beat_slot_plan_offers(3, sixteenths);
}

/// The candidate slots of a beat at position `beat_in_bar` (1 to 4) of its
/// bar; `sixteenths` adds the sixteenth-note slot used at fast tempos.
pub fn beat_slots(beat_in_bar: u8, sixteenths: bool) -> (slots: Vec<Slot>)
    ensures
        slots@.map_values(|s: Slot| slot_view(s)) == beat_slot_plan(beat_in_bar, sixteenths),
        beat_offers(beat_in_bar, sixteenths, slots@.map_values(|s: Slot| slot_view(s))),
{
    let mut slots: Vec<Slot> = Vec::new();
    let down = beat_in_bar == 1 || beat_in_bar == 3;
    let back = beat_in_bar == 2 || beat_in_bar == 4;
    let ghost plan = beat_slot_plan(beat_in_bar, sixteenths);
    let ghost p1 = seq_if(down, (SlotPosition::OnBeat, seq![Category::Shout, Category::Exclamation, Category::Shamone],
        if beat_in_bar == 1 { 90nat } else { 70nat }));
    let ghost p2 = p1 + seq_if(back, (SlotPosition::OnBeat, seq![Category::Grunt, Category::VocalPercussion], 60nat));
    let ghost p3 = p2 + seq_if(back, (SlotPosition::Upbeat, seq![Category::HeeHee, Category::Exclamation], 50nat));
    let ghost p4 = p3 + seq_if(beat_in_bar == 4, (SlotPosition::Upbeat, seq![Category::Moan], 40nat));
    let ghost p5 = p4 + seq_if(down, (SlotPosition::Upbeat, seq![Category::HeeHee, Category::Exclamation], 30nat));
    if down {
        let strength: u8 = if beat_in_bar == 1 { 90 } else { 70 };
        let cats = vec![Category::Shout, Category::Exclamation, Category::Shamone];
        assert(cats@ =~= seq![Category::Shout, Category::Exclamation, Category::Shamone]);
        slots.push(Slot { position: SlotPosition::OnBeat, categories: cats, strength_percent: strength });
    }
    assert(slots@.map_values(|s: Slot| slot_view(s)) =~= p1);
    if back {
        let cats = vec![Category::Grunt, Category::VocalPercussion];
        assert(cats@ =~= seq![Category::Grunt, Category::VocalPercussion]);
        slots.push(Slot { position: SlotPosition::OnBeat, categories: cats, strength_percent: 60 });
    }
    assert(slots@.map_values(|s: Slot| slot_view(s)) =~= p2);
    if back {
        let cats = vec![Category::HeeHee, Category::Exclamation];
        assert(cats@ =~= seq![Category::HeeHee, Category::Exclamation]);
        slots.push(Slot { position: SlotPosition::Upbeat, categories: cats, strength_percent: 50 });
    }
    assert(slots@.map_values(|s: Slot| slot_view(s)) =~= p3);
    if beat_in_bar == 4 {
        let cats = vec![Category::Moan];
        assert(cats@ =~= seq![Category::Moan]);
        slots.push(Slot { position: SlotPosition::Upbeat, categories: cats, strength_percent: 40 });
    }
    assert(slots@.map_values(|s: Slot| slot_view(s)) =~= p4);
    if down {
        let cats = vec![Category::HeeHee, Category::Exclamation];
        assert(cats@ =~= seq![Category::HeeHee, Category::Exclamation]);
        slots.push(Slot { position: SlotPosition::Upbeat, categories: cats, strength_percent: 30 });
    }
    assert(slots@.map_values(|s: Slot| slot_view(s)) =~= p5);
    if sixteenths {
        let cats = vec![Category::HeeHee, Category::Grunt];
        assert(cats@ =~= seq![Category::HeeHee, Category::Grunt]);
        slots.push(Slot { position: SlotPosition::SixteenthE, categories: cats, strength_percent: 15 });
    }
    assert(slots@.map_values(|s: Slot| slot_view(s)) =~= plan);
    proof {
        lemma_beat_slot_plan_offers(beat_in_bar, sixteenths);
    }
    slots
}

/// Whether a slot asks for a percussive ad-lib (a grunt or vocal
/// percussion); such slots may sit just outside a vocal gap.
pub fn is_percussive(categories: &[Category]) -> (percussive: bool)
    ensures
        percussive == (categories@.contains(Category::Grunt) || categories@.contains(Category::VocalPercussion)),
{
    let mut i: usize = 0;
    while i < categories.len()
        invariant
            i <= categories@.len(),
            forall|j: int| 0 <= j < i ==> categories@[j] != Category::Grunt && categories@[j] != Category::VocalPercussion,
        decreases categories.len() - i,
    {
        let c = categories[i];
        if c == Category::Grunt || c == Category::VocalPercussion {
            return true;
        }
        i = i + 1;
    }
    false
}

} // verus!
