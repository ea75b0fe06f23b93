use jacksonify::gaps::find_vocal_gaps;
use jacksonify::key::{
    absorb_short_segments, key_windows, AbsorbedSegment, merge_same_key, note_name, pitch_class_of_midi, rotate_profile,
    split_runs, KeyLabel,
};
use jacksonify::structure::{
    bar_spans, first_beat_of_bar, label_sections, section_ranges, space_boundaries, BarSpan,
    SectionLabel, SectionTraits, SectionType,
};
use jacksonify::tempo::tempo_from_votes;
use jacksonify::window::{centered_window, frame_count};

#[test]
fn gaps_are_maximal_quiet_runs_within_bounds() {
    let t = true;
    let f = false;
    let below = [f, t, t, f, t, t, t, t, f, t, t];
    // (4, 8) lasts four frames, over the limit of three; the gap at the end
    // of the audio has no upper limit.
    assert_eq!(find_vocal_gaps(&below, 2, 3), vec![(1, 3), (9, 11)]);
    assert_eq!(find_vocal_gaps(&below, 3, 10), vec![(4, 8)]);
    assert_eq!(find_vocal_gaps(&[t, t, t, t, t], 2, 3), vec![(0, 5)]);
    assert!(find_vocal_gaps(&[], 0, 0).is_empty());
    assert!(find_vocal_gaps(&[f, f], 0, 5).is_empty());
}

#[test]
fn tempo_vote_picks_the_fullest_bin() {
    assert_eq!(tempo_from_votes(&[]), 0);
    assert_eq!(tempo_from_votes(&[90, 119, 120, 120]), 120);
    assert_eq!(tempo_from_votes(&[90, 120, 121, 120]), 120);
    assert_eq!(tempo_from_votes(&[100, 100, 100, 150]), 100);
    // 120 and 122 smooth into a clear peak at 121
    assert_eq!(tempo_from_votes(&[120, 122]), 121);
}

#[test]
fn tempo_vote_smoothing_keeps_the_voted_bin() {
    // neighbours tie on smoothed votes; the bin voted for directly wins
    assert_eq!(tempo_from_votes(&[120, 120]), 120);
    assert_eq!(tempo_from_votes(&[120]), 120);
    assert_eq!(tempo_from_votes(&[60]), 60);
    assert_eq!(tempo_from_votes(&[200]), 200);
}

#[test]
fn tempo_vote_full_ties_go_to_the_faster_bin() {
    assert_eq!(tempo_from_votes(&[120, 121]), 121);
    assert_eq!(tempo_from_votes(&[i32::MIN, i32::MAX]), 200);
}

#[test]
fn tempo_votes_outside_the_range_are_clamped() {
    assert_eq!(tempo_from_votes(&[10]), 60);
    assert_eq!(tempo_from_votes(&[300]), 200);
}

#[test]
fn running_windows_are_cut_at_the_edges() {
    assert_eq!(centered_window(0, 10, 5), (0, 5));
    assert_eq!(centered_window(12, 10, 100), (2, 23));
    assert_eq!(centered_window(3, 0, 4), (3, 4));
}

#[test]
fn sections_cover_the_envelope() {
    assert_eq!(section_ranges(&[6, 14], 20), vec![(0, 6), (6, 14), (14, 20)]);
    assert_eq!(section_ranges(&[25], 20), vec![(0, 20)]);
    assert_eq!(section_ranges(&[0, 20], 20), vec![(0, 20)]);
    assert!(section_ranges(&[3], 0).is_empty());
    assert_eq!(section_ranges(&[], 8), vec![(0, 8)]);
}

#[test]
fn section_ranges_follow_unordered_boundaries() {
    assert_eq!(section_ranges(&[10, 5], 20), vec![(0, 10), (5, 20)]);
}

#[test]
fn boundaries_keep_a_minimum_section_length() {
    let mut peaks = vec![false; 30];
    for i in [3, 5, 12, 20] {
        peaks[i] = true;
    }
    assert_eq!(space_boundaries(&peaks), vec![5, 14, 22]);
}

#[test]
fn boundaries_six_bars_apart_are_both_kept() {
    let mut peaks = vec![false; 20];
    peaks[6] = true;
    peaks[12] = true;
    assert_eq!(space_boundaries(&peaks), vec![8, 14]);
    let mut peaks = vec![false; 20];
    peaks[6] = true;
    peaks[11] = true;
    assert_eq!(space_boundaries(&peaks), vec![8]);
    // adjacent flags are spaced like any others
    let mut peaks = vec![false; 20];
    peaks[2] = true;
    peaks[3] = true;
    peaks[8] = true;
    assert_eq!(space_boundaries(&peaks), vec![4, 10]);
}

#[test]
fn boundaries_ignore_the_ends_of_the_signal() {
    let mut peaks = vec![false; 10];
    peaks[0] = true;
    peaks[9] = true;
    assert!(space_boundaries(&peaks).is_empty());
    assert!(space_boundaries(&[]).is_empty());
    assert!(space_boundaries(&[true]).is_empty());
}

fn traits(intro_like: bool, outro_like: bool, loud: bool, soft: bool) -> SectionTraits {
    SectionTraits { intro_like, outro_like, loud, soft }
}

fn label(section_type: SectionType, occurrence: u32) -> SectionLabel {
    SectionLabel { section_type, occurrence }
}

#[test]
fn sections_are_labelled_in_song_order() {
    let song = [
        traits(true, false, false, true),
        traits(false, true, false, true),
        traits(false, true, true, false),
        traits(false, true, false, false),
        traits(false, true, true, false),
        traits(false, true, false, true),
        traits(false, true, true, false),
        traits(false, true, true, false),
    ];
    assert_eq!(
        label_sections(&song),
        vec![
            label(SectionType::Intro, 1),
            label(SectionType::Verse, 1),
            label(SectionType::Chorus, 1),
            label(SectionType::Bridge, 1),
            label(SectionType::Chorus, 2),
            label(SectionType::Verse, 2),
            label(SectionType::Chorus, 3),
            label(SectionType::Outro, 1),
        ]
    );
}

#[test]
fn ambiguous_sections_before_a_chorus_are_verses() {
    let song = [
        traits(false, false, false, false),
        traits(true, false, false, false),
        traits(false, false, true, false),
    ];
    assert_eq!(
        label_sections(&song),
        vec![
            label(SectionType::Verse, 1),
            label(SectionType::Verse, 2),
            label(SectionType::Chorus, 1),
        ]
    );
    // a single section that is both first and last is the intro if it can be
    assert_eq!(label_sections(&[traits(true, true, true, true)]), vec![label(SectionType::Intro, 1)]);
    assert!(label_sections(&[]).is_empty());
}

#[test]
fn first_beat_of_a_bar_is_found() {
    let bars = [0, 0, 1, 1, 2, 2, 1];
    assert_eq!(first_beat_of_bar(&bars, 1), Some(2));
    assert_eq!(first_beat_of_bar(&bars, 2), Some(4));
    assert_eq!(first_beat_of_bar(&bars, 5), None);
}

#[test]
fn bars_are_split_at_bar_changes() {
    let bars = [0, 0, 0, 0, 1, 1, 1, 1, 2, 2];
    let after_zero = [false, true, true, true, true, true, true, true, true, true];
    assert_eq!(
        bar_spans(&bars, &after_zero),
        vec![
            BarSpan { start: None, end: Some(4) },
            BarSpan { start: Some(4), end: Some(8) },
            BarSpan { start: Some(8), end: None },
        ]
    );
}

#[test]
fn grid_starting_at_bar_one_closes_the_lead_in() {
    let bars = [1, 1, 2, 2];
    let after_zero = [true; 4];
    assert_eq!(
        bar_spans(&bars, &after_zero),
        vec![
            BarSpan { start: None, end: Some(0) },
            BarSpan { start: Some(0), end: Some(2) },
            BarSpan { start: Some(2), end: None },
        ]
    );
    assert!(bar_spans(&[], &[]).is_empty());
}

#[test]
fn bars_starting_at_time_zero_are_skipped() {
    // the beat that opens bar 1 falls at time zero, so bar 1 is not closed
    let bars = [0, 1, 2];
    let after_zero = [false, false, true];
    assert_eq!(
        bar_spans(&bars, &after_zero),
        vec![
            BarSpan { start: None, end: Some(1) },
            BarSpan { start: Some(2), end: None },
        ]
    );
}

#[test]
fn key_names_read_as_expected() {
    assert_eq!(note_name(0), "C");
    assert_eq!(note_name(10), "A#");
    assert_eq!(KeyLabel { root: 1, minor: true }.name(), "C# minor");
    assert_eq!(KeyLabel { root: 3, minor: false }.name(), "D# major");
    assert_eq!(KeyLabel { root: 11, minor: false }.name(), "B major");
}

#[test]
fn midi_notes_map_to_pitch_classes() {
    assert_eq!(pitch_class_of_midi(69), 9);
    assert_eq!(pitch_class_of_midi(60), 0);
    assert_eq!(pitch_class_of_midi(-1), 11);
    assert_eq!(pitch_class_of_midi(-12), 0);
    assert_eq!(pitch_class_of_midi(i32::MIN), 4);
}

#[test]
fn profiles_rotate_to_the_new_tonic() {
    let profile = [6.35, 2.23, 3.48, 2.33, 4.38, 4.09, 2.52, 5.19, 2.39, 3.66, 2.29, 2.88];
    let rotated = rotate_profile(&profile, 2);
    assert_eq!(rotated[2], 6.35);
    assert_eq!(rotated[0], 2.29);
    assert_eq!(rotated[1], 2.88);
    assert_eq!(rotate_profile(&profile, 0), profile);
    assert_eq!(rotate_profile(&profile, 12), profile);
}

#[test]
fn windows_with_the_same_key_merge() {
    let c = KeyLabel { root: 0, minor: false };
    let a = KeyLabel { root: 9, minor: true };
    assert_eq!(merge_same_key(&[c, c, a, a, a, c]), vec![(0, 1), (2, 4), (5, 5)]);
    assert!(merge_same_key(&[]).is_empty());
    assert_eq!(merge_same_key(&[a]), vec![(0, 0)]);
}

fn group(first: usize, kept: usize, last: usize) -> AbsorbedSegment {
    AbsorbedSegment { first, kept, last }
}

#[test]
fn short_segments_join_the_segment_before() {
    assert_eq!(
        absorb_short_segments(&[false, true, true, false, true]),
        vec![group(0, 0, 2), group(3, 3, 4)]
    );
    assert!(absorb_short_segments(&[]).is_empty());
}

#[test]
fn short_leading_segments_join_the_segment_after() {
    // a short first segment takes the key of the long one after it
    assert_eq!(absorb_short_segments(&[true, false]), vec![group(0, 1, 1)]);
    assert_eq!(absorb_short_segments(&[true, true, false]), vec![group(0, 2, 2)]);
    assert_eq!(
        absorb_short_segments(&[true, false, true, false]),
        vec![group(0, 1, 2), group(3, 3, 3)]
    );
}

#[test]
fn all_short_segments_form_one_group() {
    assert_eq!(absorb_short_segments(&[true, true]), vec![group(0, 0, 1)]);
    assert_eq!(absorb_short_segments(&[true]), vec![group(0, 0, 0)]);
}

#[test]
fn runs_open_where_asked() {
    assert_eq!(split_runs(&[true, false, true, true]), vec![(0, 1), (2, 2), (3, 3)]);
}

#[test]
fn key_windows_advance_by_half_a_window() {
    assert_eq!(key_windows(10000, 4096), vec![(0, 4096), (2048, 6144), (4096, 8192)]);
    assert_eq!(key_windows(10000, 8000), vec![(0, 8000), (4000, 10000)]);
    assert!(key_windows(4095, 100).is_empty());
    assert_eq!(key_windows(4096, 2), vec![(0, 2)]);
}

#[test]
fn frames_are_counted_whole() {
    assert_eq!(frame_count(1023, 1024, 512), None);
    assert_eq!(frame_count(1024, 1024, 512), Some(1));
    assert_eq!(frame_count(2047, 1024, 512), Some(2));
    assert_eq!(frame_count(2048, 1024, 512), Some(3));
    assert_eq!(frame_count(10000, 4096, 2048), Some(3));
}
