//! Locating a tag in a file, a frame in a tag, and the fields of a picture
//! in a frame's payload.

use crate::error::Error;
use crate::tag::{Picture, PictureView};
use crate::utility::{convert_safesynch_to_u32, synchsafe_u32};
use vstd::prelude::*;
use vstd::slice::{slice_subrange, slice_to_vec};

verus! {

/// Whether the footer marker `3DI`, the header's identifier read
/// backwards, stands at offset `at`.
pub open spec fn footer_marker_at(bytes: Seq<u8>, at: int) -> bool {
    &&& 0 <= at
    &&& at + 3 <= bytes.len()
    &&& bytes[at] == 0x33
    &&& bytes[at + 1] == 0x44
    &&& bytes[at + 2] == 0x49
}

/// The length of the tag at the start of `bytes`: ten more than the
/// header's size field, and ten more again if the three bytes before that
/// offset are the footer marker. `None` if `bytes` holds no whole header or
/// ends before that length.
pub open spec fn tag_span(bytes: Seq<u8>) -> Option<int> {
    if bytes.len() < 10 {
        None
    } else {
        let candidate = 10 + synchsafe_u32(bytes[6], bytes[7], bytes[8], bytes[9]);
        let span = if footer_marker_at(bytes, candidate - 3) {
            candidate + 10
        } else {
            candidate
        };
        if span <= bytes.len() {
            Some(span)
        } else {
            None
        }
    }
}

/// The offset behind the frame that starts at `idx`: ten more than the
/// frame header's size field. `None` if `bytes` ends before the frame does.
pub open spec fn frame_span(bytes: Seq<u8>, idx: int) -> Option<int> {
    if idx < 0 || idx + 10 > bytes.len() {
        None
    } else {
        let end = idx + 10 + synchsafe_u32(
            bytes[idx + 4],
            bytes[idx + 5],
            bytes[idx + 6],
            bytes[idx + 7],
        );
        if end <= bytes.len() {
            Some(end)
        } else {
            None
        }
    }
}

/// The index of the first zero byte at or after `from`, or the length of
/// `bytes` if there is none.
pub open spec fn first_zero(bytes: Seq<u8>, from: int) -> int
    decreases bytes.len() - from,
{
    if from < 0 || from >= bytes.len() {
        bytes.len() as int
    } else if bytes[from] == 0 {
        from
    } else {
        first_zero(bytes, from + 1)
    }
}

/// The fields of a picture payload: the encoding byte, the MIME type up to
/// its terminator, the picture type, the description up to its terminator,
/// and the rest as image data. `None` if the payload ends before the second
/// terminator.
pub open spec fn scan_picture(payload: Seq<u8>) -> Option<PictureView> {
    let mime_end = first_zero(payload, 1);
    let description_end = first_zero(payload, mime_end + 2);
    if payload.len() >= 1 && mime_end + 1 < payload.len() && description_end < payload.len() {
        Some(
            PictureView {
                encoding: payload[0],
                mime: payload.subrange(1, mime_end),
                picture_type: payload[mime_end + 1],
                description: payload.subrange(mime_end + 2, description_end),
                data: payload.subrange(description_end + 1, payload.len() as int),
            },
        )
    } else {
        None
    }
}

/// `first_zero` is the least index at or after `from` that holds a zero.
pub proof fn lemma_first_zero(bytes: Seq<u8>, from: int)
    requires
        0 <= from <= bytes.len(),
    ensures
        from <= first_zero(bytes, from) <= bytes.len(),
        first_zero(bytes, from) < bytes.len() ==> bytes[first_zero(bytes, from)] == 0,
        forall|j: int| from <= j < first_zero(bytes, from) ==> bytes[j] != 0,
    decreases bytes.len() - from,
{
    if from < bytes.len() && bytes[from] != 0 {
        lemma_first_zero(bytes, from + 1);
    }
}

/// An index that holds the first zero at or after `from` is `first_zero`.
pub proof fn lemma_first_zero_is(bytes: Seq<u8>, from: int, at: int)
    requires
        0 <= from <= at <= bytes.len(),
        at < bytes.len() ==> bytes[at] == 0,
        forall|j: int| from <= j < at ==> bytes[j] != 0,
    ensures
        first_zero(bytes, from) == at,
    decreases at - from,
{
    if from < at {
        lemma_first_zero_is(bytes, from + 1, at);
    }
}

/// What the scan yields, serialized again, is the payload, and its two
/// terminated fields hold no zero byte.
pub proof fn lemma_scan_picture_sound(payload: Seq<u8>)
    ensures
        scan_picture(payload) matches Some(p) ==> p.is_terminated() && p.spec_bytes() == payload,
{
    if payload.len() >= 1 {
        let mime_end = first_zero(payload, 1);
        lemma_first_zero(payload, 1);
        if mime_end + 1 < payload.len() {
            lemma_first_zero(payload, mime_end + 2);
            if let Some(p) = scan_picture(payload) {
                assert(p.spec_bytes() =~= payload);
            }
        }
    }
}

/// The scan recovers every picture whose two terminated fields hold no
/// zero byte from its serialized payload.
pub proof fn lemma_scan_picture_complete(picture: PictureView)
    requires
        picture.is_terminated(),
    ensures
        scan_picture(picture.spec_bytes()) == Some(picture),
{
    let payload = picture.spec_bytes();
    let mime_end = 1 + picture.mime.len() as int;
    let description_end = mime_end + 2 + picture.description.len();
    assert forall|j: int| 1 <= j < mime_end implies payload[j] != 0 by {
        assert(payload[j] == picture.mime[j - 1]);
        assert(picture.mime.contains(picture.mime[j - 1]));
    }
    assert(payload[mime_end] == 0);
    lemma_first_zero_is(payload, 1, mime_end);
    assert forall|j: int| mime_end + 2 <= j < description_end implies payload[j] != 0 by {
        assert(payload[j] == picture.description[j - mime_end - 2]);
        assert(picture.description.contains(picture.description[j - mime_end - 2]));
    }
    assert(payload[description_end] == 0);
    lemma_first_zero_is(payload, mime_end + 2, description_end);
    let p = scan_picture(payload).unwrap();
    assert(p.mime =~= picture.mime);
    assert(p.description =~= picture.description);
    assert(p.data =~= picture.data);
}

/// Splits a file into its tag and what follows the tag. `None` if the file
/// holds no whole header or ends before the tag does.
pub fn extract_tag(bytes: &Vec<u8>) -> (parts: Option<(Vec<u8>, Vec<u8>)>)
    ensures
        match tag_span(bytes@) {
            Some(span) => parts matches Some((tag, rest)) && tag@ == bytes@.subrange(0, span)
                && rest@ == bytes@.subrange(span, bytes@.len() as int) && tag@ + rest@ == bytes@,
            None => parts is None,
        },
{
    if bytes.len() < 10 {
        return None;
    }
    let size = convert_safesynch_to_u32(bytes[6], bytes[7], bytes[8], bytes[9]);
    let mut span: u64 = size as u64 + 10;
    if span > bytes.len() as u64 {
        return None;
    }
    let candidate: usize = span as usize;
    if bytes[candidate - 3] == 0x33 && bytes[candidate - 2] == 0x44 && bytes[candidate - 1]
        == 0x49 {
        span += 10;
    }
    if span > bytes.len() as u64 {
        return None;
    }
    let total: usize = span as usize;
    let all = bytes.as_slice();
    assert(bytes@.subrange(0, total as int) + bytes@.subrange(total as int, bytes@.len() as int)
        =~= bytes@);
    Some(
        (
            slice_to_vec(slice_subrange(all, 0, total)),
            slice_to_vec(slice_subrange(all, total, bytes.len())),
        ),
    )
}

/// The index of the first zero byte at or after `from`, or the length of
/// `bytes` if there is none.
fn find_zero(bytes: &Vec<u8>, from: usize) -> (at: usize)
    requires
        from <= bytes@.len(),
    ensures
        at == first_zero(bytes@, from as int),
        from <= at <= bytes@.len(),
{
    let mut i: usize = from;
    while i < bytes.len() && bytes[i] != 0
        invariant
            from <= i <= bytes@.len(),
            forall|j: int| from <= j < i ==> bytes@[j] != 0,
        decreases bytes@.len() - i,
    {
        i += 1;
    }
    proof {
        lemma_first_zero_is(bytes@, from as int, i as int);
    }
    i
}

/// Splits a picture frame's payload into its fields: the encoding byte,
/// the MIME type up to its terminator, the picture type, the description up
/// to its terminator, and the image data, zero bytes included. Fails with
/// `MalformedPictureField` if the payload ends before the second terminator.
pub fn extract_picture(bytes: &Vec<u8>) -> (picture: Result<Picture, Error>)
    ensures
        match scan_picture(bytes@) {
            Some(p) => picture matches Ok(found) && found@ == p,
            None => picture == Err::<Picture, Error>(Error::MalformedPictureField),
        },
{
    let len = bytes.len();
    if len < 1 {
        return Err(Error::MalformedPictureField);
    }
    let mime_end = find_zero(bytes, 1);
    if mime_end >= len || len - mime_end < 2 {
        return Err(Error::MalformedPictureField);
    }
    let description_end = find_zero(bytes, mime_end + 2);
    if description_end >= len {
        return Err(Error::MalformedPictureField);
    }
    let all = bytes.as_slice();
    Ok(
        Picture {
            encoding: bytes[0],
            mime: slice_to_vec(slice_subrange(all, 1, mime_end)),
            picture_type: bytes[mime_end + 1],
            description: slice_to_vec(slice_subrange(all, mime_end + 2, description_end)),
            data: slice_to_vec(slice_subrange(all, description_end + 1, len)),
        },
    )
}

/// Cuts the frame that starts at `idx` out of `bytes`, and returns it with
/// the offset behind it. `None` if `bytes` ends before the frame does.
pub fn extract_frame(idx: usize, bytes: &Vec<u8>) -> (frame: Option<(Vec<u8>, usize)>)
    ensures
        match frame_span(bytes@, idx as int) {
            Some(end) => frame matches Some((found, next)) && next == end && found@
                == bytes@.subrange(idx as int, end),
            None => frame is None,
        },
{
    if idx > bytes.len() || bytes.len() - idx < 10 {
        return None;
    }
    let size = convert_safesynch_to_u32(
        bytes[idx + 4],
        bytes[idx + 5],
        bytes[idx + 6],
        bytes[idx + 7],
    );
    if size as u64 > (bytes.len() - idx - 10) as u64 {
        return None;
    }
    let end: usize = idx + 10 + size as usize;
    Some((slice_to_vec(slice_subrange(bytes.as_slice(), idx, end)), end))
}

} // verus!
