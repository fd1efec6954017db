use id3tag::utility::get_field_name;

#[test]
fn names_of_the_frames_this_codec_edits() {
    assert_eq!(get_field_name(*b"TIT2"), "Title/songname/content description");
    assert_eq!(get_field_name(*b"TPE1"), "Lead performer(s)/Soloist(s)");
    assert_eq!(get_field_name(*b"TALB"), "Album/Movie/Show title");
    assert_eq!(get_field_name(*b"TPE2"), "Band/orchestra/accompaniment");
    assert_eq!(get_field_name(*b"TSSE"), "Software/Hardware and settings used for encoding");
    assert_eq!(get_field_name(*b"APIC"), "Attached picture");
}

#[test]
fn names_of_other_frames() {
    assert_eq!(get_field_name(*b"AENC"), "Audio encryption");
    assert_eq!(get_field_name(*b"COMM"), "Comments");
    assert_eq!(get_field_name(*b"EQU2"), "Equalisation (2)");
    assert_eq!(get_field_name(*b"RVA2"), "Relative volume adjustment (2)");
    assert_eq!(get_field_name(*b"TSRC"), "ISRC (international standard recording code)");
    assert_eq!(get_field_name(*b"USLT"), "Unsynchronised lyric/text transcription");
    assert_eq!(get_field_name(*b"WPUB"), "Publishers official webpage");
}

#[test]
fn unknown_identifiers_have_one_name() {
    assert_eq!(get_field_name(*b"TXXX"), "Unknown frame");
    assert_eq!(get_field_name(*b"WXXX"), "Unknown frame");
    assert_eq!(get_field_name(*b"tit2"), "Unknown frame");
    assert_eq!(get_field_name([0, 0, 0, 0]), "Unknown frame");
    assert_eq!(get_field_name([0xff, 0xfe, 0x80, 0x81]), "Unknown frame");
}
