//! Decoding the bytes of a tag into the tag model.

use crate::edit::{
    ALBUM_ARTIST, ALBUM_TITLE, ATTACHED_PICTURE, ENCODER_SETTINGS, SONG_ARTIST, SONG_TITLE,
};
use crate::error::Error;
use crate::extract::{extract_frame, extract_picture, footer_marker_at, scan_picture};
use crate::tag::{
    frames_bytes, frames_view, lemma_frame_len, lemma_frames_bytes_concat,
    lemma_frames_bytes_single, Frame, FrameView,
    Id3v2ExtendedHeader, Id3v2FrameHeader, Id3v2Header, Id3v2PictureFrame, Id3v2Tag,
    Id3v2TextFrame, TagView, TextInformation, CRC_FLAG, EXTENDED_HEADER_FLAG, RESTRICTIONS_FLAG,
};
use crate::utility::{
    convert_safesynch_to_u32, convert_safesynch_to_u64, synchsafe_u32, synchsafe_u64,
    SYNCHSAFE_MAX,
};
use vstd::prelude::*;
use vstd::slice::{slice_subrange, slice_to_vec};

verus! {

/// Whether `bytes` holds a whole header that begins with `ID3`.
pub open spec fn has_identifier(bytes: Seq<u8>) -> bool {
    &&& bytes.len() >= 10
    &&& bytes[0] == 0x49
    &&& bytes[1] == 0x44
    &&& bytes[2] == 0x33
}

/// Whether the last ten bytes of `bytes`, behind a whole header, begin
/// with the footer marker.
pub open spec fn has_footer(bytes: Seq<u8>) -> bool {
    bytes.len() >= 20 && footer_marker_at(bytes, bytes.len() - 10)
}

/// The header that the first ten bytes of `bytes` spell.
pub open spec fn header_of(bytes: Seq<u8>) -> Id3v2Header {
    Id3v2Header {
        identifier: [bytes[0], bytes[1], bytes[2]],
        version: [bytes[3], bytes[4]],
        flags: bytes[5],
        size: synchsafe_u32(bytes[6], bytes[7], bytes[8], bytes[9]),
    }
}

/// Whether an extended header with these flags holds a CRC value.
pub open spec fn crc_present(flags: u8) -> bool {
    (flags / CRC_FLAG) % 2 == 1
}

/// Whether an extended header with these flags holds a restrictions byte.
pub open spec fn restrictions_present(flags: u8) -> bool {
    (flags / RESTRICTIONS_FLAG) % 2 == 1
}

/// Whether a header with these flags announces an extended header.
pub open spec fn extended_header_present(flags: u8) -> bool {
    (flags / EXTENDED_HEADER_FLAG) % 2 == 1
}

/// The flag tests, made with a mask, agree with the flags' definitions.
proof fn lemma_flag_masks(flags: u8)
    ensures
        (flags & EXTENDED_HEADER_FLAG != 0) == extended_header_present(flags),
        (flags & CRC_FLAG != 0) == crc_present(flags),
        (flags & RESTRICTIONS_FLAG != 0) == restrictions_present(flags),
{
    assert((flags & 0x40 != 0) == ((flags / 0x40) % 2 == 1)) by (bit_vector);
    assert((flags & 0x20 != 0) == ((flags / 0x20) % 2 == 1)) by (bit_vector);
    assert((flags & 0x10 != 0) == ((flags / 0x10) % 2 == 1)) by (bit_vector);
}

/// The number of bytes that the fields of an extended header with these
/// flags take.
pub open spec fn extended_header_len(flags: u8) -> int {
    9 + (if crc_present(flags) {
        5int
    } else {
        0int
    }) + (if restrictions_present(flags) {
        1int
    } else {
        0int
    })
}

/// Whether an extended header starts `region`: its size field bounds a span
/// that holds all its fields and ends within the region.
pub open spec fn extended_header_fits(region: Seq<u8>) -> bool {
    &&& region.len() >= 6
    &&& extended_header_len(region[5]) <= synchsafe_u32(
        region[0],
        region[1],
        region[2],
        region[3],
    ) <= region.len()
}

/// The extended header that the start of `bytes` spells. The offsets of the
/// last two fields depend on whether a CRC value stands before them.
pub open spec fn extended_header_of(bytes: Seq<u8>) -> Id3v2ExtendedHeader {
    let flags = bytes[5];
    let d_flag_at = if crc_present(flags) {
        13int
    } else {
        8int
    };
    Id3v2ExtendedHeader {
        size: synchsafe_u32(bytes[0], bytes[1], bytes[2], bytes[3]),
        number_of_flag_bytes: bytes[4],
        flags,
        b_flag_length: bytes[6],
        c_flag_length: bytes[7],
        total_frame_crc: if crc_present(flags) {
            Some(synchsafe_u64(bytes[8], bytes[9], bytes[10], bytes[11], bytes[12]))
        } else {
            None
        },
        d_flag_length: bytes[d_flag_at],
        restrictions: if restrictions_present(flags) {
            Some(bytes[d_flag_at + 1])
        } else {
            None
        },
    }
}

/// Whether `id` names a text frame that this codec decodes.
pub open spec fn is_text_identifier(id: [u8; 4]) -> bool {
    id == SONG_TITLE || id == SONG_ARTIST || id == ALBUM_TITLE || id == ALBUM_ARTIST || id
        == ENCODER_SETTINGS
}

/// The frame header that the first ten bytes of `bytes` spell.
pub open spec fn frame_header_of(bytes: Seq<u8>) -> Id3v2FrameHeader {
    Id3v2FrameHeader {
        identifier: [bytes[0], bytes[1], bytes[2], bytes[3]],
        size: synchsafe_u32(bytes[4], bytes[5], bytes[6], bytes[7]),
        flags: [bytes[8], bytes[9]],
    }
}

/// The frame that `bytes`, a header and at least one byte of payload,
/// spell. A text identifier gives a text frame: the first payload byte is
/// the encoding, the rest the text. `APIC` gives a picture frame, if the
/// payload splits into a picture's fields. Any other identifier fails.
pub open spec fn frame_of(bytes: Seq<u8>) -> Result<FrameView, Error> {
    let header = frame_header_of(bytes);
    let payload = bytes.subrange(10, bytes.len() as int);
    if is_text_identifier(header.identifier) {
        Ok(
            FrameView::Text {
                header,
                encoding: payload[0],
                data: payload.subrange(1, payload.len() as int),
            },
        )
    } else if header.identifier == ATTACHED_PICTURE {
        match scan_picture(payload) {
            Some(picture) => Ok(FrameView::Picture { header, picture }),
            None => Err(Error::MalformedPictureField),
        }
    } else {
        Err(Error::UnknownFrame(header.identifier))
    }
}

/// Whether four zero bytes, which no frame identifier is, stand at `idx`.
pub open spec fn is_padding_at(region: Seq<u8>, idx: int) -> bool {
    &&& 0 <= idx
    &&& idx + 4 <= region.len()
    &&& region[idx] == 0
    &&& region[idx + 1] == 0
    &&& region[idx + 2] == 0
    &&& region[idx + 3] == 0
}

/// The frames of `region` from offset `idx` on. The scan ends at the end of
/// the region or at padding. Before that, each frame needs its header and a
/// payload of at least one byte within the region, and the scan goes on
/// behind the payload. The first frame that fails fails the scan.
pub open spec fn frames_of(region: Seq<u8>, idx: int) -> Result<Seq<FrameView>, Error>
    decreases region.len() - idx,
{
    if idx < 0 || idx >= region.len() || is_padding_at(region, idx) {
        Ok(Seq::<FrameView>::empty())
    } else if region.len() - idx < 11 {
        Err(Error::TruncatedFrame)
    } else {
        let size = synchsafe_u32(
            region[idx + 4],
            region[idx + 5],
            region[idx + 6],
            region[idx + 7],
        );
        let end = idx + 10 + size;
        if size == 0 || end > region.len() {
            Err(Error::TruncatedFrame)
        } else {
            match frame_of(region.subrange(idx, end)) {
                Err(e) => Err(e),
                Ok(frame) => match frames_of(region, end) {
                    Err(e) => Err(e),
                    Ok(rest) => Ok(seq![frame] + rest),
                },
            }
        }
    }
}

/// What lies between header and footer, decoded: the extended header, if
/// the header's flags announce one, and the frames behind its span, or from
/// the start of the region if there is none.
pub open spec fn body_of(flags: u8, region: Seq<u8>) -> Result<
    (Option<Id3v2ExtendedHeader>, Seq<FrameView>),
    Error,
> {
    let extended = extended_header_present(flags);
    if extended && !extended_header_fits(region) {
        Err(Error::TruncatedFrame)
    } else {
        let extended_header = if extended {
            Some(extended_header_of(region))
        } else {
            None
        };
        let start = match extended_header {
            Some(e) => e.size as int,
            None => 0int,
        };
        match frames_of(region.subrange(start, region.len() as int), 0) {
            Err(e) => Err(e),
            Ok(frames) => Ok((extended_header, frames)),
        }
    }
}

/// The tag that `bytes` spell. The body lies between the header and the
/// footer, or the end of `bytes` if there is no footer. The tag's header
/// holds the length of the decoded body as its size, whatever the size
/// field said.
pub open spec fn tag_of(bytes: Seq<u8>) -> Result<TagView, Error> {
    let end = if has_footer(bytes) {
        bytes.len() - 10
    } else {
        bytes.len() as int
    };
    let header = header_of(bytes);
    if !has_identifier(bytes) {
        Err(Error::NotAnId3Tag)
    } else if end - 10 > SYNCHSAFE_MAX {
        Err(Error::TagTooLarge)
    } else {
        match body_of(header.flags, bytes.subrange(10, end)) {
            Err(e) => Err(e),
            Ok((extended_header, frames)) => Ok(
                (TagView {
                    header,
                    extended_header,
                    frames,
                    footer: if has_footer(bytes) {
                        Some(header_of(bytes.subrange(end, bytes.len() as int)))
                    } else {
                        None
                    },
                }).with_exact_size(),
            ),
        }
    }
}

/// The frames that a scan yields are well-formed and serialize to no more
/// bytes than the scan had before it.
pub proof fn lemma_frames_of_wf(region: Seq<u8>, idx: int)
    requires
        0 <= idx <= region.len(),
    ensures
        frames_of(region, idx) matches Ok(frames) ==> frames_bytes(frames).len() <= region.len()
            - idx && forall|i: int| 0 <= i < frames.len() ==> (#[trigger] frames[i]).wf(),
    decreases region.len() - idx,
{
    if let Ok(frames) = frames_of(region, idx) {
        if idx >= region.len() || is_padding_at(region, idx) {
            assert(frames_bytes(frames).len() == 0);
        } else {
            let size = synchsafe_u32(
                region[idx + 4],
                region[idx + 5],
                region[idx + 6],
                region[idx + 7],
            );
            let end = idx + 10 + size;
            let frame = frame_of(region.subrange(idx, end)).unwrap();
            let rest = frames_of(region, end).unwrap();
            lemma_frames_of_wf(region, end);
            lemma_frame_of_wf(region.subrange(idx, end));
            lemma_frames_bytes_concat(seq![frame], rest);
            lemma_frames_bytes_single(frame);
            lemma_frame_len(frame);
        }
    }
}

/// The frame that a whole frame's bytes spell is well-formed, and its
/// payload is the bytes behind the header.
pub proof fn lemma_frame_of_wf(bytes: Seq<u8>)
    requires
        bytes.len() >= 11,
        bytes.len() == 10 + synchsafe_u32(bytes[4], bytes[5], bytes[6], bytes[7]),
    ensures
        frame_of(bytes) matches Ok(frame) ==> frame.wf() && frame.payload() == bytes.subrange(
            10,
            bytes.len() as int,
        ) && frame.header() == frame_header_of(bytes),
{
    if let Ok(frame) = frame_of(bytes) {
        let payload = bytes.subrange(10, bytes.len() as int);
        match frame {
            FrameView::Text { .. } => {
                assert(frame.payload() =~= payload);
            },
            FrameView::Picture { .. } => {
                crate::extract::lemma_scan_picture_sound(payload);
            },
        }
    }
}

/// The tag that decoding yields is well-formed.
pub proof fn lemma_tag_of_wf(bytes: Seq<u8>)
    ensures
        tag_of(bytes) matches Ok(tag) ==> tag.wf(),
{
    if let Ok(tag) = tag_of(bytes) {
        let end = if has_footer(bytes) {
            bytes.len() - 10
        } else {
            bytes.len() as int
        };
        let region = bytes.subrange(10, end);
        let start = match tag.extended_header {
            Some(e) => e.size as int,
            None => 0int,
        };
        lemma_frames_of_wf(region.subrange(start, region.len() as int), 0);
        match tag.extended_header {
            Some(e) => {
                e.lemma_spec_len();
            },
            None => {},
        }
    }
}

/// Copies the bytes of `bytes` from `from` up to `to`.
fn copy_range(bytes: &Vec<u8>, from: usize, to: usize) -> (part: Vec<u8>)
    requires
        from <= to <= bytes@.len(),
    ensures
        part@ == bytes@.subrange(from as int, to as int),
{
    slice_to_vec(slice_subrange(bytes.as_slice(), from, to))
}

/// Decodes a header from its ten bytes.
fn parse_header(bytes: &Vec<u8>) -> (header: Id3v2Header)
    requires
        bytes@.len() >= 10,
    ensures
        header == header_of(bytes@),
{
    let identifier = [bytes[0], bytes[1], bytes[2]];
    let version = [bytes[3], bytes[4]];
    let flags = bytes[5];
    let size: u32 = convert_safesynch_to_u32(bytes[6], bytes[7], bytes[8], bytes[9]);
    Id3v2Header { identifier, version, flags, size }
}

/// Decodes an extended header from the bytes of its fields.
fn parse_extended_header(bytes: &Vec<u8>) -> (header: Id3v2ExtendedHeader)
    requires
        bytes@.len() >= 6,
        extended_header_len(bytes@[5]) <= bytes@.len(),
    ensures
        header == extended_header_of(bytes@),
{
    let size: u32 = convert_safesynch_to_u32(bytes[0], bytes[1], bytes[2], bytes[3]);
    let number_of_flag_bytes = bytes[4];
    let flags = bytes[5];
    proof {
        lemma_flag_masks(flags);
    }
    let b_flag_length = bytes[6];
    let c_flag_length = bytes[7];
    let crc_present = flags & CRC_FLAG != 0;
    let total_frame_crc: Option<u64> = if crc_present {
        Some(convert_safesynch_to_u64(bytes[8], bytes[9], bytes[10], bytes[11], bytes[12]))
    } else {
        None
    };
    let d_flag_at: usize = if crc_present {
        13
    } else {
        8
    };
    let d_flag_length = bytes[d_flag_at];
    let restrictions: Option<u8> = if flags & RESTRICTIONS_FLAG != 0 {
        Some(bytes[d_flag_at + 1])
    } else {
        None
    };
    Id3v2ExtendedHeader {
        size,
        number_of_flag_bytes,
        flags,
        b_flag_length,
        c_flag_length,
        total_frame_crc,
        d_flag_length,
        restrictions,
    }
}

/// Decodes one frame from its bytes, header and payload.
fn parse_frame(bytes: &Vec<u8>) -> (frame: Result<Frame, Error>)
    requires
        bytes@.len() >= 11,
    ensures
        match frame_of(bytes@) {
            Ok(f) => frame matches Ok(found) && found@ == f,
            Err(e) => frame matches Err(err) && err == e,
        },
{
    let identifier = [bytes[0], bytes[1], bytes[2], bytes[3]];
    let size = convert_safesynch_to_u32(bytes[4], bytes[5], bytes[6], bytes[7]);
    let flags = [bytes[8], bytes[9]];
    let header = Id3v2FrameHeader { identifier, size, flags };
    let data = copy_range(bytes, 10, bytes.len());
    if header.has_identifier(&SONG_TITLE) || header.has_identifier(&ALBUM_TITLE)
        || header.has_identifier(&SONG_ARTIST) || header.has_identifier(&ALBUM_ARTIST)
        || header.has_identifier(&ENCODER_SETTINGS) {
        Ok(
            Frame::Text(
                Id3v2TextFrame {
                    header,
                    info: TextInformation {
                        encoding: data[0],
                        data: copy_range(&data, 1, data.len()),
                    },
                },
            ),
        )
    } else if header.has_identifier(&ATTACHED_PICTURE) {
        match extract_picture(&data) {
            Ok(picture) => Ok(Frame::Picture(Id3v2PictureFrame { header, picture })),
            Err(e) => Err(e),
        }
    } else {
        Err(Error::UnknownFrame(identifier))
    }
}

/// Decodes the frames of a frame region, up to its end or to padding.
fn parse_frames(bytes: &Vec<u8>) -> (frames: Result<Vec<Frame>, Error>)
    ensures
        match frames_of(bytes@, 0) {
            Ok(fs) => frames matches Ok(found) && frames_view(found@) == fs,
            Err(e) => frames matches Err(err) && err == e,
        },
{
    let len = bytes.len();
    let mut idx: usize = 0;
    let mut frames: Vec<Frame> = Vec::new();
    assert(frames_view(frames@) =~= Seq::<FrameView>::empty());
    assert(forall|rest: Seq<FrameView>| Seq::<FrameView>::empty() + rest =~= rest);
    while idx < len
        invariant
            len == bytes@.len(),
            idx <= len,
            match frames_of(bytes@, idx as int) {
                Ok(rest) => frames_of(bytes@, 0) == Ok::<Seq<FrameView>, Error>(
                    frames_view(frames@) + rest,
                ),
                Err(e) => frames_of(bytes@, 0) == Err::<Seq<FrameView>, Error>(e),
            },
        decreases len - idx,
    {
        let remaining = len - idx;
        if remaining >= 4 && bytes[idx] == 0x00 && bytes[idx + 1] == 0x00 && bytes[idx + 2] == 0x00
            && bytes[idx + 3] == 0x00 {
            assert(frames_view(frames@) + Seq::<FrameView>::empty() =~= frames_view(frames@));
            return Ok(frames);
        }
        if remaining < 11 {
            return Err(Error::TruncatedFrame);
        }
        let (frame_bytes, end) = match extract_frame(idx, bytes) {
            Some(found) => found,
            None => {
                return Err(Error::TruncatedFrame);
            },
        };
        if end - idx < 11 {
            return Err(Error::TruncatedFrame);
        }
        let frame = match parse_frame(&frame_bytes) {
            Ok(frame) => frame,
            Err(e) => {
                return Err(e);
            },
        };
        proof {
            if let Ok(rest) = frames_of(bytes@, end as int) {
                assert(frames_view(frames@.push(frame)) + rest =~= frames_view(frames@) + (
                seq![frame@] + rest));
            }
        }
        frames.push(frame);
        idx = end;
    }
    assert(frames_view(frames@) + Seq::<FrameView>::empty() =~= frames_view(frames@));
    Ok(frames)
}

/// Decodes the extended header at the start of what lies between the
/// header and `end`, if one fits there.
fn parse_extended_header_at(bytes: &Vec<u8>, end: usize) -> (header: Option<Id3v2ExtendedHeader>)
    requires
        10 <= end <= bytes@.len(),
    ensures
        header == (if extended_header_fits(bytes@.subrange(10, end as int)) {
            Some(extended_header_of(bytes@.subrange(10, end as int)))
        } else {
            None
        }),
{
    let ghost region = bytes@.subrange(10, end as int);
    if end - 10 < 6 {
        return None;
    }
    let size = convert_safesynch_to_u32(bytes[10], bytes[11], bytes[12], bytes[13]);
    let flags = bytes[15];
    proof {
        lemma_flag_masks(flags);
    }
    let mut needed: u32 = 9;
    if flags & CRC_FLAG != 0 {
        needed += 5;
    }
    if flags & RESTRICTIONS_FLAG != 0 {
        needed += 1;
    }
    assert(region[0] == bytes@[10] && region[1] == bytes@[11] && region[2] == bytes@[12]
        && region[3] == bytes@[13] && region[5] == bytes@[15]);
    if size < needed || size as usize > end - 10 {
        return None;
    }
    let fields = copy_range(bytes, 10, 10 + size as usize);
    let header = parse_extended_header(&fields);
    assert(header == extended_header_of(region));
    Some(header)
}

/// Whether the last ten bytes of `bytes`, behind a whole header, begin
/// with the footer marker.
fn ends_with_footer(bytes: &Vec<u8>) -> (found: bool)
    ensures
        found == has_footer(bytes@),
{
    let len = bytes.len();
    len >= 20 && bytes[len - 10] == 0x33 && bytes[len - 9] == 0x44 && bytes[len - 8] == 0x49
}

/// Decodes what lies between the header and `end`: the extended header,
/// if `flags` announce one, and the frames.
fn parse_body(bytes: &Vec<u8>, end: usize, flags: u8) -> (body: Result<
    (Option<Id3v2ExtendedHeader>, Vec<Frame>),
    Error,
>)
    requires
        10 <= end <= bytes@.len(),
    ensures
        match body_of(flags, bytes@.subrange(10, end as int)) {
            Ok((extended_header, frames)) => body matches Ok(found) && found.0 == extended_header
                && frames_view(found.1@) == frames,
            Err(e) => body matches Err(err) && err == e,
        },
{
    let ghost region = bytes@.subrange(10, end as int);
    proof {
        lemma_flag_masks(flags);
    }
    let mut start: usize = 10;
    let mut extended_header: Option<Id3v2ExtendedHeader> = None;
    if flags & EXTENDED_HEADER_FLAG != 0 {
        match parse_extended_header_at(bytes, end) {
            Some(e) => {
                start = 10 + e.size as usize;
                extended_header = Some(e);
            },
            None => {
                return Err(Error::TruncatedFrame);
            },
        }
    }
    let frame_bytes = copy_range(bytes, start, end);
    assert(frame_bytes@ =~= region.subrange(start - 10, region.len() as int));
    match parse_frames(&frame_bytes) {
        Ok(frames) => Ok((extended_header, frames)),
        Err(e) => Err(e),
    }
}

/// Decodes a tag.
///
/// Fails with `NotAnId3Tag` if `bytes` is shorter than a header or does not
/// begin with `ID3`; with `TagTooLarge` if more bytes lie between header and
/// footer than a size field can state; with `TruncatedFrame` if the
/// extended header that the flags announce, a frame header or a frame's
/// body does not fit; with `UnknownFrame` or `MalformedPictureField` if a
/// frame does not decode. Otherwise the result is the tag that `tag_of`
/// describes, and it is well-formed.
pub fn parse_tag(bytes: &Vec<u8>) -> (tag: Result<Id3v2Tag, Error>)
    ensures
        match tag_of(bytes@) {
            Ok(t) => tag matches Ok(found) && found@ == t && found.wf(),
            Err(e) => tag matches Err(err) && err == e,
        },
{
    let len = bytes.len();
    if len < 10 || bytes[0] != 0x49 || bytes[1] != 0x44 || bytes[2] != 0x33 {
        return Err(Error::NotAnId3Tag);
    }
    let footer_present = ends_with_footer(bytes);
    let end: usize = if footer_present {
        len - 10
    } else {
        len
    };
    if end - 10 > SYNCHSAFE_MAX as usize {
        return Err(Error::TagTooLarge);
    }
    let header = parse_header(bytes);
    let (extended_header, frames) = match parse_body(bytes, end, header.flags) {
        Ok(body) => body,
        Err(e) => {
            return Err(e);
        },
    };
    let footer: Option<Id3v2Header> = if footer_present {
        Some(parse_header(&copy_range(bytes, end, len)))
    } else {
        None
    };
    let mut tag = Id3v2Tag { header, extended_header, frames, footer };
    proof {
        lemma_tag_of_wf(bytes@);
    }
    let size = tag.body_len();
    tag.header.size = size;
    Ok(tag)
}

} // verus!
