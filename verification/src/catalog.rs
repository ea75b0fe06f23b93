use vstd::prelude::*;

verus! {

/// The kinds of vocal ad-lib that the sample library holds.
#[derive(Clone, Copy, Debug, PartialEq, Eq, Structural)]
pub enum Category {
    HeeHee,
    Shout,
    Grunt,
    Moan,
    Shamone,
    VocalPercussion,
    Exclamation,
}

/// One ad-lib sample: its file, its kind, whether it carries a pitch, and
/// the pitch class (`0..12`, C = 0) that it was sung at.
#[derive(Clone, Copy, Debug)]
pub struct SampleInfo {
    pub file: &'static str,
    pub category: Category,
    pub pitched: bool,
    pub estimated_pitch_class: Option<u8>,
}

/// The sample library, in the order in which samples are offered.
pub open spec fn catalog() -> Seq<SampleInfo> {
    seq![
        SampleInfo { file: "hee-hee.mp3", category: Category::HeeHee, pitched: true, estimated_pitch_class: Some(8) },
        SampleInfo { file: "eeeehe.mp3", category: Category::HeeHee, pitched: true, estimated_pitch_class: Some(4) },
        SampleInfo { file: "eeeh.mp3", category: Category::HeeHee, pitched: true, estimated_pitch_class: Some(3) },
        SampleInfo { file: "eeh.mp3", category: Category::HeeHee, pitched: true, estimated_pitch_class: Some(5) },
        SampleInfo { file: "yow.mp3", category: Category::Shout, pitched: true, estimated_pitch_class: Some(6) },
        SampleInfo { file: "ieow.mp3", category: Category::Shout, pitched: true, estimated_pitch_class: Some(11) },
        SampleInfo { file: "gadaaao.mp3", category: Category::Shout, pitched: true, estimated_pitch_class: Some(10) },
        SampleInfo { file: "ah.mp3", category: Category::Grunt, pitched: true, estimated_pitch_class: Some(9) },
        SampleInfo { file: "aeh.mp3", category: Category::Grunt, pitched: true, estimated_pitch_class: Some(1) },
        SampleInfo { file: "eh.mp3", category: Category::Grunt, pitched: true, estimated_pitch_class: Some(4) },
        SampleInfo { file: "uh-duh.mp3", category: Category::Grunt, pitched: true, estimated_pitch_class: Some(6) },
        SampleInfo { file: "uh-uh.mp3", category: Category::Grunt, pitched: true, estimated_pitch_class: Some(4) },
        SampleInfo { file: "aaah.mp3", category: Category::Exclamation, pitched: true, estimated_pitch_class: Some(8) },
        SampleInfo { file: "ooooh.mp3", category: Category::Exclamation, pitched: true, estimated_pitch_class: Some(10) },
        SampleInfo { file: "yeeeah.mp3", category: Category::Exclamation, pitched: true, estimated_pitch_class: Some(4) },
        SampleInfo { file: "yeeahaaa.mp3", category: Category::Exclamation, pitched: true, estimated_pitch_class: Some(6) },
        SampleInfo { file: "haaaaoo.mp3", category: Category::Moan, pitched: true, estimated_pitch_class: Some(11) },
        SampleInfo { file: "ooooou-hooooou.mp3", category: Category::Moan, pitched: true, estimated_pitch_class: Some(9) },
        SampleInfo { file: "ooouuh.mp3", category: Category::Moan, pitched: true, estimated_pitch_class: Some(11) },
        SampleInfo { file: "ouh-hou.mp3", category: Category::Moan, pitched: true, estimated_pitch_class: Some(7) },
        SampleInfo { file: "uooou.mp3", category: Category::Moan, pitched: true, estimated_pitch_class: Some(1) },
        SampleInfo { file: "shamone.mp3", category: Category::Shamone, pitched: true, estimated_pitch_class: Some(8) },
        SampleInfo { file: "shaka.mp3", category: Category::VocalPercussion, pitched: false, estimated_pitch_class: None },
        SampleInfo { file: "shaka-shaka.mp3", category: Category::VocalPercussion, pitched: false, estimated_pitch_class: None },
        SampleInfo { file: "dah-dah-dah.mp3", category: Category::VocalPercussion, pitched: false, estimated_pitch_class: None },
    ]
}

/// A pitch class recorded for a sample lies in `0..12`.
pub open spec fn sample_pitch_valid(s: SampleInfo) -> bool {
    match s.estimated_pitch_class {
        Some(pc) => pc < 12,
        None => true,
    }
}

/// The library of ad-lib samples: twenty-two pitched samples with the pitch
/// class each was sung at, and three unpitched vocal-percussion samples.
pub fn sample_catalog() -> (samples: Vec<SampleInfo>)
    ensures
        samples@ == catalog(),
{
    vec![
        SampleInfo { file: "hee-hee.mp3", category: Category::HeeHee, pitched: true, estimated_pitch_class: Some(8) },
        SampleInfo { file: "eeeehe.mp3", category: Category::HeeHee, pitched: true, estimated_pitch_class: Some(4) },
        SampleInfo { file: "eeeh.mp3", category: Category::HeeHee, pitched: true, estimated_pitch_class: Some(3) },
        SampleInfo { file: "eeh.mp3", category: Category::HeeHee, pitched: true, estimated_pitch_class: Some(5) },
        SampleInfo { file: "yow.mp3", category: Category::Shout, pitched: true, estimated_pitch_class: Some(6) },
        SampleInfo { file: "ieow.mp3", category: Category::Shout, pitched: true, estimated_pitch_class: Some(11) },
        SampleInfo { file: "gadaaao.mp3", category: Category::Shout, pitched: true, estimated_pitch_class: Some(10) },
        SampleInfo { file: "ah.mp3", category: Category::Grunt, pitched: true, estimated_pitch_class: Some(9) },
        SampleInfo { file: "aeh.mp3", category: Category::Grunt, pitched: true, estimated_pitch_class: Some(1) },
        SampleInfo { file: "eh.mp3", category: Category::Grunt, pitched: true, estimated_pitch_class: Some(4) },
        SampleInfo { file: "uh-duh.mp3", category: Category::Grunt, pitched: true, estimated_pitch_class: Some(6) },
        SampleInfo { file: "uh-uh.mp3", category: Category::Grunt, pitched: true, estimated_pitch_class: Some(4) },
        SampleInfo { file: "aaah.mp3", category: Category::Exclamation, pitched: true, estimated_pitch_class: Some(8) },
        SampleInfo { file: "ooooh.mp3", category: Category::Exclamation, pitched: true, estimated_pitch_class: Some(10) },
        SampleInfo { file: "yeeeah.mp3", category: Category::Exclamation, pitched: true, estimated_pitch_class: Some(4) },
        SampleInfo { file: "yeeahaaa.mp3", category: Category::Exclamation, pitched: true, estimated_pitch_class: Some(6) },
        SampleInfo { file: "haaaaoo.mp3", category: Category::Moan, pitched: true, estimated_pitch_class: Some(11) },
        SampleInfo { file: "ooooou-hooooou.mp3", category: Category::Moan, pitched: true, estimated_pitch_class: Some(9) },
        SampleInfo { file: "ooouuh.mp3", category: Category::Moan, pitched: true, estimated_pitch_class: Some(11) },
        SampleInfo { file: "ouh-hou.mp3", category: Category::Moan, pitched: true, estimated_pitch_class: Some(7) },
        SampleInfo { file: "uooou.mp3", category: Category::Moan, pitched: true, estimated_pitch_class: Some(1) },
        SampleInfo { file: "shamone.mp3", category: Category::Shamone, pitched: true, estimated_pitch_class: Some(8) },
        SampleInfo { file: "shaka.mp3", category: Category::VocalPercussion, pitched: false, estimated_pitch_class: None },
        SampleInfo { file: "shaka-shaka.mp3", category: Category::VocalPercussion, pitched: false, estimated_pitch_class: None },
        SampleInfo { file: "dah-dah-dah.mp3", category: Category::VocalPercussion, pitched: false, estimated_pitch_class: None },
    ]
}

/// Every pitch class in the library lies in `0..12`, and a sample carries a
/// pitch class exactly when it is pitched.
pub proof fn lemma_catalog_well_formed()
    ensures
        catalog().len() == 25,
        forall|i: int| 0 <= i < catalog().len() ==> sample_pitch_valid(#[trigger] catalog()[i]),
        forall|i: int|
            0 <= i < catalog().len() ==> (#[trigger] catalog()[i]).pitched
                == (catalog()[i].estimated_pitch_class is Some),
{
}

/// The length and the first two characters of a file name; they tell the
/// files of the library apart.
pub open spec fn file_signature(file: Seq<char>) -> (nat, char, char) {
    (file.len(), file[0], file[1])
}

/// No two samples of the library share a file name, so a sample is named
/// by its position in the library as well as by its file.
pub proof fn lemma_catalog_files_distinct()
    ensures
        forall|i: int, j: int|
            0 <= i < j < catalog().len() ==> (#[trigger] catalog()[i]).file@ != (#[trigger] catalog()[j]).file@,
{
    reveal_strlit("hee-hee.mp3");
    reveal_strlit("eeeehe.mp3");
    reveal_strlit("eeeh.mp3");
    reveal_strlit("eeh.mp3");
    reveal_strlit("yow.mp3");
    reveal_strlit("ieow.mp3");
    reveal_strlit("gadaaao.mp3");
    reveal_strlit("ah.mp3");
    reveal_strlit("aeh.mp3");
    reveal_strlit("eh.mp3");
    reveal_strlit("uh-duh.mp3");
    reveal_strlit("uh-uh.mp3");
    reveal_strlit("aaah.mp3");
    reveal_strlit("ooooh.mp3");
    reveal_strlit("yeeeah.mp3");
    reveal_strlit("yeeahaaa.mp3");
    reveal_strlit("haaaaoo.mp3");
    reveal_strlit("ooooou-hooooou.mp3");
    reveal_strlit("ooouuh.mp3");
    reveal_strlit("ouh-hou.mp3");
    reveal_strlit("uooou.mp3");
    reveal_strlit("shamone.mp3");
    reveal_strlit("shaka.mp3");
    reveal_strlit("shaka-shaka.mp3");
    reveal_strlit("dah-dah-dah.mp3");
    assert forall|i: int, j: int|
        0 <= i < j < catalog().len() implies (#[trigger] catalog()[i]).file@ != (#[trigger] catalog()[j]).file@ by {
        assert(i == 0 || i == 1 || i == 2 || i == 3 || i == 4 || i == 5 || i == 6 || i == 7 || i == 8 || i == 9 || i == 10 || i == 11 || i == 12 || i == 13 || i == 14 || i == 15 || i == 16 || i == 17 || i == 18 || i == 19 || i == 20 || i == 21 || i == 22 || i == 23 || i == 24);
        assert(j == 0 || j == 1 || j == 2 || j == 3 || j == 4 || j == 5 || j == 6 || j == 7 || j == 8 || j == 9 || j == 10 || j == 11 || j == 12 || j == 13 || j == 14 || j == 15 || j == 16 || j == 17 || j == 18 || j == 19 || j == 20 || j == 21 || j == 22 || j == 23 || j == 24);
        assert(file_signature(catalog()[i].file@) != file_signature(catalog()[j].file@));
    }
}

/// The note each sample of the library was sung at, by file, in scientific
/// pitch notation; the vocal-percussion samples carry no pitch.
pub open spec fn sung_notes() -> Seq<(&'static str, Option<&'static str>)> {
    seq![
        ("hee-hee.mp3", Some("G#4")),
        ("eeeehe.mp3", Some("E5")),
        ("eeeh.mp3", Some("D#5")),
        ("eeh.mp3", Some("F5")),
        ("yow.mp3", Some("F#5")),
        ("ieow.mp3", Some("B4")),
        ("gadaaao.mp3", Some("A#4")),
        ("ah.mp3", Some("A3")),
        ("aeh.mp3", Some("C#5")),
        ("eh.mp3", Some("E5")),
        ("uh-duh.mp3", Some("F#4")),
        ("uh-uh.mp3", Some("E5")),
        ("aaah.mp3", Some("G#4")),
        ("ooooh.mp3", Some("A#4")),
        ("yeeeah.mp3", Some("E5")),
        ("yeeahaaa.mp3", Some("F#4")),
        ("haaaaoo.mp3", Some("B4")),
        ("ooooou-hooooou.mp3", Some("A4")),
        ("ooouuh.mp3", Some("B4")),
        ("ouh-hou.mp3", Some("G5")),
        ("uooou.mp3", Some("C#4")),
        ("shamone.mp3", Some("G#4")),
        ("shaka.mp3", None),
        ("shaka-shaka.mp3", None),
        ("dah-dah-dah.mp3", None),
    ]
}

/// The pitch class of a natural note letter: C = 0, D = 2, E = 4, F = 5,
/// G = 7, A = 9, B = 11.
pub open spec fn letter_pitch_class(letter: char) -> int {
    if letter == 'C' {
        0
    } else if letter == 'D' {
        2
    } else if letter == 'E' {
        4
    } else if letter == 'F' {
        5
    } else if letter == 'G' {
        7
    } else if letter == 'A' {
        9
    } else {
        11
    }
}

/// The pitch class of a note written as a letter, an optional sharp and an
/// octave, such as "F#5".
pub open spec fn note_pitch_class(note: Seq<char>) -> int {
    (letter_pitch_class(note[0]) + if note[1] == '#' { 1int } else { 0int }) % 12
}

/// Each sample of the library records the pitch class of the note it was
/// sung at, and only the unpitched samples record none.
pub proof fn lemma_catalog_pitch_classes_match_sung_notes()
    ensures
        forall|i: int| 0 <= i < catalog().len() ==> {
            let s = #[trigger] catalog()[i];
            let sung = sung_notes()[i];
            &&& s.file@ == sung.0@
            &&& (s.estimated_pitch_class is Some) == (sung.1 is Some)
            &&& sung.1 matches Some(note) ==> s.estimated_pitch_class == Some(note_pitch_class(note@) as u8)
        },
{
    reveal_strlit("A#4");
    reveal_strlit("A3");
    reveal_strlit("A4");
    reveal_strlit("B4");
    reveal_strlit("C#4");
    reveal_strlit("C#5");
    reveal_strlit("D#5");
    reveal_strlit("E5");
    reveal_strlit("F#4");
    reveal_strlit("F#5");
    reveal_strlit("F5");
    reveal_strlit("G#4");
    reveal_strlit("G5");
    assert forall|i: int| 0 <= i < catalog().len() implies {
        let s = #[trigger] catalog()[i];
        let sung = sung_notes()[i];
        &&& s.file@ == sung.0@
        &&& (s.estimated_pitch_class is Some) == (sung.1 is Some)
        &&& sung.1 matches Some(note) ==> s.estimated_pitch_class == Some(note_pitch_class(note@) as u8)
    } by {
        assert(i == 0 || i == 1 || i == 2 || i == 3 || i == 4 || i == 5 || i == 6 || i == 7 || i == 8 || i == 9 || i == 10 || i == 11 || i == 12 || i == 13 || i == 14 || i == 15 || i == 16 || i == 17 || i == 18 || i == 19 || i == 20 || i == 21 || i == 22 || i == 23 || i == 24);
    }
}

} // verus!
