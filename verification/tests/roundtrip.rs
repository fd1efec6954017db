use id3tag::parse::parse_tag;
use id3tag::tag::{
    Frame, Id3v2ExtendedHeader, Id3v2FrameHeader, Id3v2Header, Id3v2PictureFrame, Id3v2TextFrame,
    Picture, TextInformation,
};

fn full_tag_bytes() -> Vec<u8> {
    let mut bytes = vec![0x49, 0x44, 0x33, 0x04, 0x00, 0x40, 0, 0, 0x01, 0x02];
    bytes.extend_from_slice(&[0, 0, 0, 15, 1, 0x30, 0, 5, 0x01, 0x02, 0x03, 0x04, 0x05, 1, 0xc4]);
    bytes.extend_from_slice(b"TIT2");
    bytes.extend_from_slice(&[0, 0, 0, 5, 0x40, 0, 3, 0x53, 0x6F, 0x6E, 0x67]);
    bytes.extend_from_slice(b"APIC");
    bytes.extend_from_slice(&[0, 0, 0, 11, 0, 0, 3, 0x61, 0x2f, 0x62, 0, 3, 0x63, 0, 1, 0, 2]);
    bytes.extend_from_slice(b"TSSE");
    bytes.extend_from_slice(&[0, 0, 0, 1, 0, 0, 0]);
    bytes.extend_from_slice(&[0x33, 0x44, 0x49, 0x04, 0x00, 0x40, 0, 0, 0, 0]);
    bytes
}

#[test]
fn header_bytes_are_identifier_version_flags_size() {
    let header = Id3v2Header { identifier: *b"ID3", version: [4, 0], flags: 0x40, size: 257 };
    assert_eq!(header.into_bytes(), vec![0x49, 0x44, 0x33, 4, 0, 0x40, 0, 0, 2, 1]);
}

#[test]
fn extended_header_bytes_follow_the_held_fields() {
    let mut e = Id3v2ExtendedHeader {
        size: 15,
        number_of_flag_bytes: 1,
        flags: 0x30,
        b_flag_length: 7,
        c_flag_length: 5,
        total_frame_crc: Some(0xffff_ffff),
        d_flag_length: 1,
        restrictions: Some(0xc4),
    };
    assert_eq!(
        e.into_bytes(),
        vec![0, 0, 0, 15, 1, 0x30, 7, 5, 0x0f, 0x7f, 0x7f, 0x7f, 0x7f, 1, 0xc4]
    );
    e.restrictions = None;
    assert_eq!(e.into_bytes(), vec![0, 0, 0, 15, 1, 0x30, 7, 5, 0x0f, 0x7f, 0x7f, 0x7f, 0x7f, 1]);
    e.total_frame_crc = None;
    assert_eq!(e.into_bytes(), vec![0, 0, 0, 15, 1, 0x30, 7, 5, 1]);
    e.restrictions = Some(2);
    assert_eq!(e.into_bytes(), vec![0, 0, 0, 15, 1, 0x30, 7, 5, 1, 2]);
}

#[test]
fn frame_bytes_are_header_then_payload() {
    let header = Id3v2FrameHeader { identifier: *b"TALB", size: 130, flags: [0x40, 0x01] };
    assert_eq!(header.into_bytes(), vec![0x54, 0x41, 0x4c, 0x42, 0, 0, 1, 2, 0x40, 0x01]);
    assert!(header.has_identifier(b"TALB"));
    assert!(!header.has_identifier(b"TALC"));
    let info = TextInformation { encoding: 3, data: vec![0x61, 0x62] };
    assert_eq!(info.into_bytes(), vec![3, 0x61, 0x62]);
    let text = Id3v2TextFrame {
        header: Id3v2FrameHeader { identifier: *b"TALB", size: 3, flags: [0, 0] },
        info,
    };
    assert_eq!(text.into_bytes(), vec![0x54, 0x41, 0x4c, 0x42, 0, 0, 0, 3, 0, 0, 3, 0x61, 0x62]);
    assert_eq!(Frame::Text(text.clone()).into_bytes(), text.into_bytes());
    let picture = Picture {
        encoding: 3,
        mime: b"a/b".to_vec(),
        picture_type: 3,
        description: b"c".to_vec(),
        data: vec![1, 0, 2],
    };
    assert_eq!(picture.into_bytes(), vec![3, 0x61, 0x2f, 0x62, 0, 3, 0x63, 0, 1, 0, 2]);
    assert_eq!(picture.size(), 11);
    let frame = Id3v2PictureFrame {
        header: Id3v2FrameHeader { identifier: *b"APIC", size: 11, flags: [0, 0] },
        picture,
    };
    assert_eq!(
        frame.into_bytes(),
        vec![0x41, 0x50, 0x49, 0x43, 0, 0, 0, 11, 0, 0, 3, 0x61, 0x2f, 0x62, 0, 3, 0x63, 0, 1, 0, 2]
    );
}

#[test]
fn decoded_tag_survives_encode_and_decode() {
    let bytes = full_tag_bytes();
    let tag = parse_tag(&bytes).unwrap();
    assert_eq!(tag.frames.len(), 3);
    assert_eq!(tag.header.size, 15 + 15 + 21 + 11);
    let out = tag.into_bytes();
    // Only the size field of the header differs from the input.
    assert_eq!(out[..6], bytes[..6]);
    assert_eq!(out[6..10], [0, 0, 0, 62]);
    assert_eq!(out[10..], bytes[10..]);
    assert_eq!(out.len() as u64, tag.clone().get_size());
    let again = parse_tag(&out).unwrap();
    assert_eq!(again.header.size, tag.header.size);
    assert_eq!(again.frames.len(), tag.frames.len());
    assert_eq!(again.frames, tag.frames);
    assert_eq!(again, tag);
    assert_eq!(again.into_bytes(), out);
}

#[test]
fn padding_is_dropped_and_the_size_follows() {
    let mut bytes = vec![0x49, 0x44, 0x33, 0x04, 0x00, 0x00, 0, 0, 0, 40];
    bytes.extend_from_slice(b"TIT2");
    bytes.extend_from_slice(&[0, 0, 0, 5, 0, 0, 3, 0x53, 0x6F, 0x6E, 0x67]);
    bytes.extend_from_slice(&[0; 25]);
    let tag = parse_tag(&bytes).unwrap();
    let out = tag.into_bytes();
    assert_eq!(out.len(), 25);
    assert_eq!(out[6..10], [0, 0, 0, 15]);
    assert_eq!(parse_tag(&out).unwrap(), tag);
}

#[test]
fn size_bytes_that_are_not_synchsafe_are_written_synchsafe() {
    let mut bytes = vec![0x49, 0x44, 0x33, 0x04, 0x00, 0x00, 0, 0, 0, 0];
    bytes.extend_from_slice(b"TIT2");
    bytes.extend_from_slice(&[0, 0, 0, 0x81, 0, 0]);
    bytes.extend_from_slice(&[0x41; 129]);
    let tag = parse_tag(&bytes).unwrap();
    match &tag.frames[0] {
        Frame::Text(f) => assert_eq!(f.header.size, 129),
        Frame::Picture(_) => panic!("a text frame was expected"),
    }
    let out = tag.into_bytes();
    assert_eq!(out[14..18], [0, 0, 1, 1]);
    assert_eq!(out[6..10], [0, 0, 1, 11]);
    assert_eq!(parse_tag(&out).unwrap(), tag);
}

#[test]
fn marker_left_at_the_end_by_dropped_padding_breaks_the_round_trip() {
    let mut bytes = vec![0x49, 0x44, 0x33, 0x04, 0x00, 0x00, 0, 0, 0, 0];
    bytes.extend_from_slice(b"TIT2");
    bytes.extend_from_slice(&[0, 0, 0, 11, 0, 0, 3]);
    bytes.extend_from_slice(&[0x33, 0x44, 0x49, 1, 2, 3, 4, 5, 6, 7]);
    bytes.extend_from_slice(&[0; 4]);
    let tag = parse_tag(&bytes).unwrap();
    assert_eq!(tag.frames.len(), 1);
    assert!(tag.footer.is_none());
    let out = tag.into_bytes();
    assert_eq!(out.len(), 31);
    assert!(parse_tag(&out).is_err());
}

#[test]
fn extended_header_span_beyond_its_fields_breaks_the_round_trip() {
    let mut bytes = vec![0x49, 0x44, 0x33, 0x04, 0x00, 0x40, 0, 0, 0, 0];
    bytes.extend_from_slice(&[0, 0, 0, 12, 1, 0x00, 0, 0, 0, 0xaa, 0xbb, 0xcc]);
    bytes.extend_from_slice(b"TIT2");
    bytes.extend_from_slice(&[0, 0, 0, 5, 0, 0, 3, 0x53, 0x6F, 0x6E, 0x67]);
    let tag = parse_tag(&bytes).unwrap();
    assert_eq!(tag.frames.len(), 1);
    let out = tag.into_bytes();
    assert_eq!(out.len(), 10 + 9 + 15);
    assert_ne!(parse_tag(&out), Ok(tag));
}
