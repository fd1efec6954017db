use id3tag::error::Error;
use id3tag::parse::parse_tag;
use id3tag::tag::{
    Frame, Id3v2FrameHeader, Id3v2Header, Id3v2PictureFrame, Id3v2Tag, Id3v2TextFrame, Picture,
    TextInformation,
};

fn empty_tag() -> Id3v2Tag {
    parse_tag(&vec![0x49, 0x44, 0x33, 0x04, 0x00, 0x00, 0, 0, 0, 0]).unwrap()
}

fn picture(mime: &str, description: &str, data: &[u8]) -> Picture {
    Picture {
        encoding: 3,
        mime: mime.as_bytes().to_vec(),
        picture_type: 3,
        description: description.as_bytes().to_vec(),
        data: data.to_vec(),
    }
}

fn text_of(frame: &Frame) -> (&[u8; 4], &[u8]) {
    match frame {
        Frame::Text(f) => (&f.header.identifier, &f.info.data),
        Frame::Picture(_) => panic!("a text frame was expected"),
    }
}

#[test]
fn empty_tag_serializes_to_its_header() {
    let tag = empty_tag();
    let bytes = tag.into_bytes();
    assert_eq!(bytes, vec![0x49, 0x44, 0x33, 0x04, 0x00, 0x00, 0, 0, 0, 0]);
    assert_eq!(tag.get_size(), 10);
    let tag = Id3v2Tag {
        header: Id3v2Header { identifier: *b"ID3", version: [4, 0], flags: 0, size: 0 },
        extended_header: None,
        frames: vec![],
        footer: None,
    };
    assert_eq!(tag.into_bytes(), vec![0x49, 0x44, 0x33, 0x04, 0x00, 0x00, 0, 0, 0, 0]);
}

#[test]
fn setters_append_in_call_order() {
    let mut tag = empty_tag();
    assert_eq!(tag.set_song_title("Title".to_string()), Ok(()));
    assert_eq!(tag.set_song_artist_name("Artist".to_string()), Ok(()));
    assert_eq!(tag.set_album_title("Album".to_string()), Ok(()));
    assert_eq!(tag.set_album_artist_name("Band".to_string()), Ok(()));
    assert_eq!(tag.frames.len(), 4);
    assert_eq!(text_of(&tag.frames[0]), (b"TIT2", &b"Title"[..]));
    assert_eq!(text_of(&tag.frames[1]), (b"TPE1", &b"Artist"[..]));
    assert_eq!(text_of(&tag.frames[2]), (b"TALB", &b"Album"[..]));
    assert_eq!(text_of(&tag.frames[3]), (b"TPE2", &b"Band"[..]));
    assert_eq!(tag.header.size, (11 + 5) + (11 + 6) + (11 + 5) + (11 + 4));
    let bytes = tag.into_bytes();
    assert_eq!(bytes.len(), 10 + 64);
    assert_eq!(bytes[6..10], [0, 0, 0, 64]);
    assert_eq!(tag.get_size(), 74);
}

#[test]
fn new_text_frame_has_utf8_marker_and_exact_size() {
    let mut tag = empty_tag();
    tag.set_song_title("Gr\u{fc}n".to_string()).unwrap();
    assert_eq!(
        tag.frames[0],
        Frame::Text(Id3v2TextFrame {
            header: Id3v2FrameHeader { identifier: *b"TIT2", size: 6, flags: [0, 0] },
            info: TextInformation { encoding: 3, data: vec![0x47, 0x72, 0xc3, 0xbc, 0x6e] },
        })
    );
    assert_eq!(tag.header.size, 16);
}

#[test]
fn setting_a_title_twice_is_setting_it_once() {
    let mut once = empty_tag();
    once.set_song_artist_name("Artist".to_string()).unwrap();
    once.set_song_title("Same".to_string()).unwrap();
    let mut twice = once.clone();
    twice.set_song_title("Same".to_string()).unwrap();
    assert_eq!(twice, once);
    let titles = twice.frames.iter().filter(|f| text_of(f).0 == b"TIT2").count();
    assert_eq!(titles, 1);
    assert_eq!(twice.header.size, once.header.size);
    assert_eq!(twice.clone().get_size(), once.clone().get_size());
    assert_eq!(twice.into_bytes(), once.into_bytes());
}

#[test]
fn replacing_keeps_the_position_and_moves_the_size() {
    let mut tag = empty_tag();
    tag.set_song_title("A long first title".to_string()).unwrap();
    tag.set_album_title("Album".to_string()).unwrap();
    let before = tag.header.size;
    tag.set_song_title("Short".to_string()).unwrap();
    assert_eq!(tag.frames.len(), 2);
    assert_eq!(text_of(&tag.frames[0]), (b"TIT2", &b"Short"[..]));
    assert_eq!(text_of(&tag.frames[1]), (b"TALB", &b"Album"[..]));
    assert_eq!(tag.header.size, before - 18 + 5);
    tag.set_song_title("".to_string()).unwrap();
    assert_eq!(text_of(&tag.frames[0]), (b"TIT2", &b""[..]));
    assert_eq!(tag.header.size, 11 + 16);
}

#[test]
fn only_the_first_match_is_replaced() {
    let mut bytes = vec![0x49, 0x44, 0x33, 0x04, 0x00, 0x00, 0, 0, 0, 0];
    for text in [&b"one"[..], &b"two"[..]] {
        bytes.extend_from_slice(b"TIT2");
        bytes.extend_from_slice(&[0, 0, 0, 4, 0x20, 0x00, 0]);
        bytes.extend_from_slice(text);
    }
    let mut tag = parse_tag(&bytes).unwrap();
    tag.set_song_title("three".to_string()).unwrap();
    assert_eq!(tag.frames.len(), 2);
    assert_eq!(text_of(&tag.frames[0]), (b"TIT2", &b"three"[..]));
    assert_eq!(text_of(&tag.frames[1]), (b"TIT2", &b"two"[..]));
    match &tag.frames[0] {
        Frame::Text(f) => {
            assert_eq!(f.header.flags, [0, 0]);
            assert_eq!(f.info.encoding, 3);
        }
        Frame::Picture(_) => panic!("a text frame was expected"),
    }
    assert_eq!(tag.header.size, 16 + 14);
}

#[test]
fn cover_art_is_appended_then_replaced() {
    let mut tag = empty_tag();
    tag.set_song_title("Song".to_string()).unwrap();
    let before = tag.header.size;
    let first = picture("image/png", "front", &[1, 2, 3, 4, 5, 6]);
    let first_len = first.size() as u32;
    assert_eq!(first_len, 1 + 9 + 1 + 1 + 5 + 1 + 6);
    assert_eq!(tag.set_cover_art(first.clone()), Ok(()));
    assert_eq!(tag.frames.len(), 2);
    assert_eq!(tag.header.size, before + 10 + first_len);
    assert_eq!(
        tag.frames[1],
        Frame::Picture(Id3v2PictureFrame {
            header: Id3v2FrameHeader { identifier: *b"APIC", size: first_len, flags: [0, 0] },
            picture: first,
        })
    );
    let second = picture("image/jpeg", "", &[9; 100]);
    let second_len = second.size() as u32;
    assert_eq!(tag.set_cover_art(second.clone()), Ok(()));
    assert_eq!(tag.frames.len(), 2);
    assert_eq!(text_of(&tag.frames[0]), (b"TIT2", &b"Song"[..]));
    match &tag.frames[1] {
        Frame::Picture(f) => {
            assert_eq!(f.picture, second);
            assert_eq!(f.header.size, second_len);
        }
        Frame::Text(_) => panic!("a picture frame was expected"),
    }
    assert_eq!(tag.header.size, before + 10 + second_len);
    let bytes = tag.into_bytes();
    assert_eq!(bytes.len() as u32, 10 + before + 10 + second_len);
    assert_eq!(parse_tag(&bytes).unwrap(), tag);
}

#[test]
fn cover_art_is_stored_as_front_cover() {
    let mut tag = empty_tag();
    let mut back = picture("image/png", "back", &[1]);
    back.picture_type = 4;
    back.encoding = 0;
    tag.set_cover_art(back).unwrap();
    match &tag.frames[0] {
        Frame::Picture(f) => {
            assert_eq!(f.picture.picture_type, 3);
            assert_eq!(f.picture.encoding, 0);
        }
        Frame::Text(_) => panic!("a picture frame was expected"),
    }
}

fn mismatched_tag() -> Id3v2Tag {
    let cover = picture("a", "b", &[]);
    let cover_len = cover.size() as u32;
    Id3v2Tag {
        header: Id3v2Header {
            identifier: *b"ID3",
            version: [4, 0],
            flags: 0,
            size: (10 + cover_len) + (10 + 2),
        },
        extended_header: None,
        frames: vec![
            Frame::Picture(Id3v2PictureFrame {
                header: Id3v2FrameHeader { identifier: *b"TIT2", size: cover_len, flags: [0, 0] },
                picture: cover,
            }),
            Frame::Text(Id3v2TextFrame {
                header: Id3v2FrameHeader { identifier: *b"APIC", size: 2, flags: [0, 0] },
                info: TextInformation { encoding: 3, data: vec![0x78] },
            }),
        ],
        footer: None,
    }
}

#[test]
fn frame_of_the_other_kind_is_not_replaced() {
    let mut tag = mismatched_tag();
    let before = tag.clone();
    assert_eq!(tag.set_song_title("Song".to_string()), Err(Error::FrameKindMismatch));
    assert_eq!(tag, before);
    assert_eq!(tag.set_cover_art(picture("c", "d", &[1, 2])), Err(Error::FrameKindMismatch));
    assert_eq!(tag, before);
    assert_eq!(tag.set_album_title("Album".to_string()), Ok(()));
    assert_eq!(tag.frames.len(), 3);
}

#[test]
fn edit_that_outgrows_the_size_field_is_refused() {
    let mut tag = empty_tag();
    tag.set_song_title("Song".to_string()).unwrap();
    let before = tag.clone();
    let huge = Picture {
        encoding: 3,
        mime: vec![],
        picture_type: 3,
        description: vec![],
        data: vec![0u8; (1 << 28) - 4 - 10 - 15],
    };
    assert_eq!(tag.set_cover_art(huge), Err(Error::TagTooLarge));
    assert_eq!(tag, before);
    let largest = Picture {
        encoding: 3,
        mime: vec![],
        picture_type: 3,
        description: vec![],
        data: vec![0u8; (1 << 28) - 4 - 10 - 15 - 1],
    };
    assert_eq!(tag.set_cover_art(largest), Ok(()));
    assert_eq!(tag.header.size, (1 << 28) - 1);
    assert_eq!(tag.set_album_title("".to_string()), Err(Error::TagTooLarge));
    assert_eq!(tag.frames.len(), 2);
    assert_eq!(tag.set_song_title("Son".to_string()), Ok(()));
    assert_eq!(tag.header.size, (1 << 28) - 2);
    assert_eq!(tag.set_song_title("Songs".to_string()), Err(Error::TagTooLarge));
    assert_eq!(tag.header.size, (1 << 28) - 2);
}

#[test]
fn size_counts_extended_header_and_footer() {
    let mut bytes = vec![0x49, 0x44, 0x33, 0x04, 0x00, 0x40, 0, 0, 0, 0];
    bytes.extend_from_slice(&[0, 0, 0, 10, 1, 0x10, 0, 0, 1, 0xc4]);
    bytes.extend_from_slice(b"TIT2");
    bytes.extend_from_slice(&[0, 0, 0, 5, 0, 0, 3, 0x53, 0x6F, 0x6E, 0x67]);
    bytes.extend_from_slice(&[0x33, 0x44, 0x49, 0x04, 0x00, 0x40, 0, 0, 0, 25]);
    let mut tag = parse_tag(&bytes).unwrap();
    assert_eq!(tag.header.size, 25);
    assert_eq!(tag.clone().get_size(), 45);
    tag.set_album_title("Album".to_string()).unwrap();
    assert_eq!(tag.header.size, 41);
    assert_eq!(tag.clone().get_size(), 61);
    let out = tag.into_bytes();
    assert_eq!(out.len(), 61);
    assert_eq!(out[6..10], [0, 0, 0, 41]);
    assert_eq!(out[51..], bytes[35..]);
}

#[test]
fn well_formedness_is_exact_sizes() {
    let mut tag = empty_tag();
    assert!(tag.is_well_formed());
    tag.set_song_title("Song".to_string()).unwrap();
    tag.set_cover_art(picture("image/png", "front", &[1, 2, 3])).unwrap();
    assert!(tag.is_well_formed());
    assert!(tag.frames.iter().all(|f| f.is_well_formed()));
    assert!(mismatched_tag().is_well_formed());

    let mut off = tag.clone();
    off.header.size += 1;
    assert!(!off.is_well_formed());
    let mut off = tag.clone();
    match &mut off.frames[0] {
        Frame::Text(f) => f.header.size -= 1,
        Frame::Picture(_) => panic!("a text frame was expected"),
    }
    assert!(!off.frames[0].is_well_formed());
    assert!(!off.is_well_formed());
    let mut off = tag.clone();
    match &mut off.frames[1] {
        Frame::Picture(f) => f.picture.mime.push(0x61),
        Frame::Text(_) => panic!("a picture frame was expected"),
    }
    assert!(!off.frames[1].is_well_formed());
    assert!(!off.is_well_formed());
    let mut off = tag.clone();
    off.extended_header = Some(id3tag::tag::Id3v2ExtendedHeader {
        size: 9,
        number_of_flag_bytes: 1,
        flags: 0,
        b_flag_length: 0,
        c_flag_length: 0,
        total_frame_crc: None,
        d_flag_length: 0,
        restrictions: None,
    });
    assert!(!off.is_well_formed());
    off.header.size += 9;
    assert!(off.is_well_formed());
}
