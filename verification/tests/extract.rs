use id3tag::error::Error;
use id3tag::extract::{extract_frame, extract_picture, extract_tag};

fn header(size: [u8; 4]) -> Vec<u8> {
    let mut v = vec![0x49, 0x44, 0x33, 0x04, 0x00, 0x00];
    v.extend_from_slice(&size);
    v
}

#[test]
fn tag_is_split_from_audio() {
    let mut file = header([0, 0, 0, 5]);
    file.extend_from_slice(&[1, 2, 3, 4, 5]);
    file.extend_from_slice(&[0xff, 0xfb, 0x90]);
    let (tag, rest) = extract_tag(&file).unwrap();
    assert_eq!(tag, file[..15].to_vec());
    assert_eq!(rest, vec![0xff, 0xfb, 0x90]);
}

#[test]
fn tag_may_fill_the_file() {
    let file = header([0, 0, 0, 0]);
    let (tag, rest) = extract_tag(&file).unwrap();
    assert_eq!(tag, file);
    assert_eq!(rest, Vec::<u8>::new());
}

#[test]
fn marker_before_the_candidate_end_extends_the_tag() {
    let mut file = header([0, 0, 0, 5]);
    file.extend_from_slice(&[1, 2, 0x33, 0x44, 0x49]);
    file.extend_from_slice(&[9; 12]);
    let (tag, rest) = extract_tag(&file).unwrap();
    assert_eq!(tag.len(), 25);
    assert_eq!(tag, file[..25].to_vec());
    assert_eq!(rest, vec![9, 9]);
}

#[test]
fn tag_that_overruns_the_file_is_not_split() {
    assert_eq!(extract_tag(&Vec::new()), None);
    assert_eq!(extract_tag(&vec![0x49, 0x44, 0x33, 4, 0, 0, 0, 0, 0]), None);
    let mut file = header([0, 0, 0, 5]);
    file.extend_from_slice(&[1, 2, 3, 4]);
    assert_eq!(extract_tag(&file), None);
    // The marker asks for ten bytes more than the file holds.
    let mut file = header([0, 0, 0, 5]);
    file.extend_from_slice(&[1, 2, 0x33, 0x44, 0x49]);
    file.extend_from_slice(&[9; 9]);
    assert_eq!(extract_tag(&file), None);
}

#[test]
fn frame_is_cut_out_with_the_next_offset() {
    let mut region = vec![0xaa, 0xbb];
    region.extend_from_slice(b"TIT2");
    region.extend_from_slice(&[0, 0, 0, 3, 0, 0]);
    region.extend_from_slice(&[3, 0x41, 0x42]);
    region.extend_from_slice(&[0xcc]);
    let (frame, next) = extract_frame(2, &region).unwrap();
    assert_eq!(next, 15);
    assert_eq!(frame, region[2..15].to_vec());
}

#[test]
fn frame_that_overruns_the_region_is_not_cut() {
    let mut region = Vec::new();
    region.extend_from_slice(b"TIT2");
    region.extend_from_slice(&[0, 0, 0, 3, 0, 0]);
    region.extend_from_slice(&[3, 0x41]);
    assert_eq!(extract_frame(0, &region), None);
    assert_eq!(extract_frame(3, &region), None);
    assert_eq!(extract_frame(12, &region), None);
    assert_eq!(extract_frame(13, &region), None);
    assert_eq!(extract_frame(usize::MAX, &region), None);
}

#[test]
fn picture_payload_splits_into_fields() {
    let mut payload = vec![0x03];
    payload.extend_from_slice(&[0x69, 0x6D, 0x61, 0x67, 0x65, 0x2F, 0x6A, 0x70, 0x65, 0x67, 0x00]);
    payload.push(0x03);
    payload.extend_from_slice(&[0x63, 0x6F, 0x76, 0x65, 0x72, 0x00]);
    payload.extend_from_slice(&[0xff, 0xd8, 0x00, 0x00, 0xff, 0xd9]);
    let picture = extract_picture(&payload).unwrap();
    assert_eq!(picture.encoding, 3);
    assert_eq!(picture.mime, b"image/jpeg".to_vec());
    assert_eq!(picture.picture_type, 3);
    assert_eq!(picture.description, b"cover".to_vec());
    assert_eq!(picture.data, vec![0xff, 0xd8, 0x00, 0x00, 0xff, 0xd9]);
    assert_eq!(picture.into_bytes(), payload);
    assert_eq!(picture.size(), payload.len());
}

#[test]
fn picture_fields_may_be_empty() {
    let picture = extract_picture(&vec![0x00, 0x00, 0x07, 0x00]).unwrap();
    assert_eq!(picture.encoding, 0);
    assert_eq!(picture.mime, Vec::<u8>::new());
    assert_eq!(picture.picture_type, 7);
    assert_eq!(picture.description, Vec::<u8>::new());
    assert_eq!(picture.data, Vec::<u8>::new());
}

#[test]
fn picture_payload_without_terminators_is_malformed() {
    let malformed: Vec<Vec<u8>> = vec![
        vec![],
        vec![3],
        vec![3, 0x61, 0x62],
        vec![3, 0x61, 0x00],
        vec![3, 0x61, 0x00, 0x03],
        vec![3, 0x61, 0x00, 0x03, 0x62, 0x63],
        vec![3, 0x61, 0x00, 0x00, 0x62, 0x63],
    ];
    for payload in malformed {
        assert_eq!(extract_picture(&payload), Err(Error::MalformedPictureField));
    }
}
