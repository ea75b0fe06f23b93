use jacksonify::catalog::{sample_catalog, Category};
use jacksonify::placement::{
    beat_slots, is_percussive, pitch_shift_toward_key, sample_pitch_shift, SlotPosition,
};
use jacksonify::selection::{available_samples, SampleRotation};

#[test]
fn catalog_lists_every_sample_once() {
    let catalog = sample_catalog();
    assert_eq!(catalog.len(), 25);
    for i in 0..catalog.len() {
        for j in (i + 1)..catalog.len() {
            assert_ne!(catalog[i].file, catalog[j].file);
        }
    }
    assert_eq!(catalog[0].file, "hee-hee.mp3");
    assert_eq!(catalog[0].category, Category::HeeHee);
    assert_eq!(catalog[0].estimated_pitch_class, Some(8));
    assert_eq!(catalog[21].file, "shamone.mp3");
    assert_eq!(catalog[24].file, "dah-dah-dah.mp3");
}

#[test]
fn catalog_pitch_classes_follow_pitchedness() {
    let catalog = sample_catalog();
    for s in &catalog {
        assert_eq!(s.pitched, s.estimated_pitch_class.is_some());
        if let Some(pc) = s.estimated_pitch_class {
            assert!(pc < 12);
        }
    }
    let unpitched: Vec<&str> = catalog.iter().filter(|s| !s.pitched).map(|s| s.file).collect();
    assert_eq!(unpitched, vec!["shaka.mp3", "shaka-shaka.mp3", "dah-dah-dah.mp3"]);
}

#[test]
fn pitch_shift_prefers_the_nearer_fifth() {
    // G# sample in C major: the root is four semitones up, the fifth (G) one down.
    assert_eq!(pitch_shift_toward_key(0, 8), -1);
}

#[test]
fn pitch_shift_prefers_the_root_on_a_tie_free_choice() {
    // A sample already on the root stays put.
    assert_eq!(pitch_shift_toward_key(0, 0), 0);
    // E in C major: root four down (-4), fifth three up (+3).
    assert_eq!(pitch_shift_toward_key(0, 4), 3);
    // D in C major: root two down.
    assert_eq!(pitch_shift_toward_key(0, 2), -2);
}

#[test]
fn pitch_shift_never_exceeds_three_semitones() {
    for root in 0u8..12 {
        for pc in 0u8..12 {
            let shift = pitch_shift_toward_key(root, pc);
            assert!((-3..=3).contains(&shift));
            let landing = ((pc as i32 + shift as i32) % 12 + 12) % 12;
            assert!(landing == root as i32 || landing == ((root as i32 + 7) % 12));
        }
    }
}

#[test]
fn pitch_shift_wraps_around_the_octave() {
    // B sample in C# major: root two up, fifth (G#) three down.
    assert_eq!(pitch_shift_toward_key(1, 11), 2);
    // A# sample in A minor root: root one down.
    assert_eq!(pitch_shift_toward_key(9, 10), -1);
}

#[test]
fn unpitched_or_keyless_samples_are_not_shifted() {
    let catalog = sample_catalog();
    assert_eq!(sample_pitch_shift(&catalog[22], Some(0)), 0);
    assert_eq!(sample_pitch_shift(&catalog[0], None), 0);
    assert_eq!(sample_pitch_shift(&catalog[0], Some(0)), -1);
}

#[test]
fn downbeat_slots_at_fast_tempo() {
    let slots = beat_slots(1, true);
    assert_eq!(slots.len(), 3);
    assert_eq!(slots[0].position, SlotPosition::OnBeat);
    assert_eq!(slots[0].categories, vec![Category::Shout, Category::Exclamation, Category::Shamone]);
    assert_eq!(slots[0].strength_percent, 90);
    assert_eq!(slots[1].position, SlotPosition::Upbeat);
    assert_eq!(slots[1].categories, vec![Category::HeeHee, Category::Exclamation]);
    assert_eq!(slots[1].strength_percent, 30);
    assert_eq!(slots[2].position, SlotPosition::SixteenthE);
    assert_eq!(slots[2].categories, vec![Category::HeeHee, Category::Grunt]);
    assert_eq!(slots[2].strength_percent, 15);
}

#[test]
fn third_beat_is_a_weaker_downbeat() {
    let slots = beat_slots(3, false);
    assert_eq!(slots.len(), 2);
    assert_eq!(slots[0].strength_percent, 70);
    assert_eq!(slots[1].strength_percent, 30);
}

#[test]
fn fourth_beat_slots_at_slow_tempo() {
    let slots = beat_slots(4, false);
    let plan: Vec<(SlotPosition, Vec<Category>, u8)> = slots
        .into_iter()
        .map(|s| (s.position, s.categories, s.strength_percent))
        .collect();
    assert_eq!(
        plan,
        vec![
            (SlotPosition::OnBeat, vec![Category::Grunt, Category::VocalPercussion], 60),
            (SlotPosition::Upbeat, vec![Category::HeeHee, Category::Exclamation], 50),
            (SlotPosition::Upbeat, vec![Category::Moan], 40),
        ]
    );
    assert_eq!(beat_slots(2, false).len(), 2);
    assert!(beat_slots(5, false).is_empty());
    assert_eq!(beat_slots(5, true).len(), 1);
}

#[test]
fn percussive_slots_are_grunts_or_vocal_percussion() {
    assert!(is_percussive(&[Category::Grunt, Category::VocalPercussion]));
    assert!(is_percussive(&[Category::HeeHee, Category::Grunt]));
    assert!(!is_percussive(&[Category::HeeHee, Category::Exclamation]));
    assert!(!is_percussive(&[]));
}

#[test]
fn available_samples_keep_library_order() {
    let catalog = sample_catalog();
    assert_eq!(available_samples(&catalog, &[Category::Shout]), vec![4, 5, 6]);
    assert_eq!(
        available_samples(&catalog, &[Category::Shamone, Category::Shout]),
        vec![4, 5, 6, 21]
    );
    assert!(available_samples(&catalog, &[]).is_empty());
}

#[test]
fn rotation_avoids_last_file_and_kind() {
    let catalog = sample_catalog();
    let cats = [Category::Shout, Category::Exclamation, Category::Shamone];
    let mut rotation = SampleRotation::new();
    assert_eq!(rotation.next_sample(&catalog, &cats), Some(4));
    assert_eq!(rotation.next_sample(&catalog, &cats), Some(13));
    assert_eq!(rotation.next_sample(&catalog, &cats), Some(6));
    assert_eq!(rotation.picks, 3);
    assert_eq!(rotation.last, Some(6));
}

#[test]
fn rotation_falls_back_when_all_share_a_kind() {
    let catalog = sample_catalog();
    let moans = [Category::Moan];
    let mut rotation = SampleRotation { last: Some(16), picks: 3 };
    assert_eq!(rotation.next_sample(&catalog, &moans), Some(20));
    // four moans other than the last one placed: the fifth pick wraps round them
    let mut rotation = SampleRotation { last: Some(16), picks: 4 };
    assert_eq!(rotation.next_sample(&catalog, &moans), Some(17));
    let mut rotation = SampleRotation { last: Some(20), picks: 4 };
    assert_eq!(rotation.next_sample(&catalog, &moans), Some(16));
}

#[test]
fn rotation_never_repeats_a_file_while_another_matches() {
    let catalog = sample_catalog();
    let hee = [Category::HeeHee];
    let mut rotation = SampleRotation::new();
    let picks: Vec<usize> = (0..8).map(|_| rotation.next_sample(&catalog, &hee).unwrap()).collect();
    let files: Vec<&str> = picks.iter().map(|&i| catalog[i].file).collect();
    assert_eq!(&files[0..4], &["hee-hee.mp3", "eeeh.mp3", "eeh.mp3", "hee-hee.mp3"]);
    for w in picks.windows(2) {
        assert_ne!(w[0], w[1]);
    }
}

#[test]
fn rotation_repeats_only_the_sole_match() {
    let catalog = sample_catalog();
    let shamone = [Category::Shamone];
    let mut rotation = SampleRotation::new();
    assert_eq!(rotation.next_sample(&catalog, &shamone), Some(21));
    assert_eq!(rotation.next_sample(&catalog, &shamone), Some(21));
}

#[test]
fn rotation_without_matching_samples_changes_nothing() {
    let catalog = sample_catalog();
    let mut rotation = SampleRotation { last: Some(3), picks: 7 };
    assert_eq!(rotation.next_sample(&catalog, &[]), None);
    assert_eq!(rotation.last, Some(3));
    assert_eq!(rotation.picks, 7);
}
