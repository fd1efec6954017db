//! Decoding inverts encoding on the tags that decoding yields.

use crate::edit::{
    first_with_id, lemma_first_with_id, lemma_put_frame_wf, new_picture_frame_view,
    new_text_frame_view, ALBUM_ARTIST, ALBUM_TITLE, ATTACHED_PICTURE, ENCODER_SETTINGS,
    SONG_ARTIST, SONG_TITLE,
};
use crate::error::Error;
use crate::extract::{lemma_scan_picture_complete, lemma_scan_picture_sound};
use crate::parse::{
    body_of, crc_present, extended_header_fits, extended_header_len, extended_header_of,
    extended_header_present, frame_header_of, frame_of, frames_of, has_footer, has_identifier,
    header_of, is_padding_at, is_text_identifier, lemma_frame_of_wf, lemma_tag_of_wf,
    restrictions_present, tag_of,
};
use crate::tag::{
    frames_bytes, lemma_frame_len, lemma_frames_bytes_concat, lemma_frames_bytes_single,
    FrameView, Id3v2ExtendedHeader, Id3v2Header, PictureView, TagView,
};
use crate::utility::{lemma_synchsafe_u32_roundtrip, synchsafe_u32, u32_synchsafe, SYNCHSAFE_MAX};
use vstd::prelude::*;

verus! {

/// Whether a frame decodes from its own serialized bytes: its size field
/// is exact and fits a synchsafe field, and `frame_of` yields the frame.
pub open spec fn reencodes(frame: FrameView) -> bool {
    &&& frame.wf()
    &&& frame.header().size <= SYNCHSAFE_MAX
    &&& frame.header().identifier[0] != 0
    &&& frame_of(frame.spec_bytes()) == Ok::<FrameView, Error>(frame)
}

/// Whether an extended header holds its optional fields as its flags say,
/// and its size field, which fits a synchsafe field, spans its fields.
pub open spec fn extended_header_is_decoded(e: Id3v2ExtendedHeader) -> bool {
    &&& e.total_frame_crc is Some == crc_present(e.flags)
    &&& e.restrictions is Some == restrictions_present(e.flags)
    &&& e.spec_len() <= e.size <= SYNCHSAFE_MAX
}

/// What decoding establishes of a tag, beyond exact sizes: the header
/// begins with `ID3` and its flags announce the extended header exactly if
/// there is one, the footer begins with the footer marker, and every frame
/// decodes from its own bytes.
pub open spec fn is_decoded(tag: TagView) -> bool {
    &&& tag.wf()
    &&& tag.header.identifier@ == seq![0x49u8, 0x44u8, 0x33u8]
    &&& extended_header_present(tag.header.flags) == (tag.extended_header is Some)
    &&& tag.extended_header matches Some(e) ==> extended_header_is_decoded(e)
    &&& tag.footer matches Some(f) ==> f.identifier@ == seq![0x33u8, 0x44u8, 0x49u8]
    &&& forall|i: int| 0 <= i < tag.frames.len() ==> reencodes(#[trigger] tag.frames[i])
}

/// Whether serializing a tag keeps the layout that decoding reads: the
/// extended header's size field states the length of its fields, and a tag
/// without a footer does not end in ten bytes that begin with the footer
/// marker.
pub open spec fn keeps_layout(tag: TagView) -> bool {
    &&& tag.extended_header matches Some(e) ==> e.size == e.spec_len()
    &&& tag.footer is None ==> !has_footer(tag.spec_bytes())
}

/// The frame header that the serialized bytes of a frame spell is the
/// frame's header, if its size fits a synchsafe field.
proof fn lemma_frame_header_reread(frame: FrameView)
    requires
        frame.header().size <= SYNCHSAFE_MAX,
    ensures
        frame_header_of(frame.spec_bytes()) == frame.header(),
        frame.spec_bytes().subrange(10, frame.spec_bytes().len() as int) == frame.payload(),
        frame.spec_bytes().len() == 10 + frame.payload().len(),
        frame.spec_bytes()[0] == frame.header().identifier[0],
{
    let header = frame.header();
    let own = frame.spec_bytes();
    lemma_synchsafe_u32_roundtrip(header.size);
    let e = u32_synchsafe(header.size);
    assert(own[4] == e[0] && own[5] == e[1] && own[6] == e[2] && own[7] == e[3]);
    assert(frame_header_of(own).identifier =~= header.identifier);
    assert(frame_header_of(own).flags =~= header.flags);
    assert(own.subrange(10, own.len() as int) =~= frame.payload());
}

/// A frame that decoding yields decodes again from its serialized bytes.
pub proof fn lemma_frame_reencodes(bytes: Seq<u8>)
    requires
        bytes.len() >= 11,
        bytes.len() == 10 + synchsafe_u32(bytes[4], bytes[5], bytes[6], bytes[7]),
        bytes.len() - 10 <= SYNCHSAFE_MAX,
    ensures
        frame_of(bytes) matches Ok(frame) ==> reencodes(frame),
{
    if let Ok(frame) = frame_of(bytes) {
        lemma_frame_of_wf(bytes);
        lemma_frame_header_reread(frame);
        let payload = bytes.subrange(10, bytes.len() as int);
        assert(frame.header().identifier[0] != 0) by {
            assert(SONG_TITLE[0] == 0x54 && SONG_ARTIST[0] == 0x54 && ALBUM_TITLE[0] == 0x54
                && ALBUM_ARTIST[0] == 0x54 && ENCODER_SETTINGS[0] == 0x54 && ATTACHED_PICTURE[0]
                == 0x41);
        }
        match frame {
            FrameView::Text { encoding, data, .. } => {
                assert(payload.subrange(1, payload.len() as int) =~= data);
            },
            FrameView::Picture { picture, .. } => {
                lemma_scan_picture_sound(payload);
                lemma_scan_picture_complete(picture);
            },
        }
    }
}

/// Every frame that a scan yields decodes again from its serialized bytes.
pub proof fn lemma_frames_reencode(region: Seq<u8>, idx: int)
    requires
        0 <= idx <= region.len(),
        region.len() <= SYNCHSAFE_MAX,
    ensures
        frames_of(region, idx) matches Ok(frames) ==> forall|i: int|
            0 <= i < frames.len() ==> reencodes(#[trigger] frames[i]),
    decreases region.len() - idx,
{
    if let Ok(frames) = frames_of(region, idx) {
        if idx >= region.len() || is_padding_at(region, idx) {
        } else {
            let size = synchsafe_u32(
                region[idx + 4],
                region[idx + 5],
                region[idx + 6],
                region[idx + 7],
            );
            let end = idx + 10 + size;
            lemma_frame_reencodes(region.subrange(idx, end));
            lemma_frames_reencode(region, end);
        }
    }
}

/// Where the serialized bytes of a frame that decodes again stand at `idx`,
/// the scan from `idx` yields that frame and goes on behind it.
proof fn lemma_scan_step(region: Seq<u8>, idx: int, frame: FrameView)
    requires
        reencodes(frame),
        0 <= idx,
        idx + frame.spec_bytes().len() <= region.len(),
        region.subrange(idx, idx + frame.spec_bytes().len()) == frame.spec_bytes(),
    ensures
        frames_of(region, idx) == (match frames_of(region, idx + frame.spec_bytes().len()) {
            Err(e) => Err::<Seq<FrameView>, Error>(e),
            Ok(rest) => Ok::<Seq<FrameView>, Error>(seq![frame] + rest),
        }),
{
    let own = frame.spec_bytes();
    lemma_frame_header_reread(frame);
    lemma_frame_len(frame);
    let part = region.subrange(idx, idx + own.len());
    assert(region[idx] == part[0]);
    assert(region[idx + 4] == part[4] && region[idx + 5] == part[5] && region[idx + 6] == part[6]
        && region[idx + 7] == part[7]);
    assert(frame_header_of(own).size == frame.header().size);
}

/// Three byte sequences in a row: the middle one stands behind the first,
/// and the grouping does not matter.
proof fn lemma_three_parts(first: Seq<u8>, middle: Seq<u8>, last: Seq<u8>)
    ensures
        first + (middle + last) == (first + middle) + last,
        (first + (middle + last)).subrange(first.len() as int, first.len() + middle.len() as int)
            == middle,
{
    let whole = first + (middle + last);
    assert(whole =~= (first + middle) + last);
    assert(whole.subrange(first.len() as int, first.len() + middle.len() as int) =~= middle);
}

/// Serializing frames puts the first frame's bytes before those of the
/// rest.
proof fn lemma_frames_bytes_first(frames: Seq<FrameView>)
    requires
        frames.len() > 0,
    ensures
        frames_bytes(frames) == frames[0].spec_bytes() + frames_bytes(
            frames.subrange(1, frames.len() as int),
        ),
{
    let rest = frames.subrange(1, frames.len() as int);
    assert(seq![frames[0]] + rest =~= frames);
    lemma_frames_bytes_concat(seq![frames[0]], rest);
    lemma_frames_bytes_single(frames[0]);
}

/// A scan over the serialized bytes of frames that each decode again
/// yields those frames.
pub proof fn lemma_frames_of_frames_bytes(before: Seq<u8>, frames: Seq<FrameView>)
    requires
        forall|i: int| 0 <= i < frames.len() ==> reencodes(#[trigger] frames[i]),
    ensures
        frames_of(before + frames_bytes(frames), before.len() as int) == Ok::<
            Seq<FrameView>,
            Error,
        >(frames),
    decreases frames.len(),
{
    let region = before + frames_bytes(frames);
    let idx = before.len() as int;
    if frames.len() == 0 {
        assert(region.len() == idx);
        assert(frames =~= Seq::<FrameView>::empty());
    } else {
        let frame = frames[0];
        let rest = frames.subrange(1, frames.len() as int);
        let own = frame.spec_bytes();
        lemma_frames_bytes_first(frames);
        lemma_three_parts(before, own, frames_bytes(rest));
        assert forall|i: int| 0 <= i < rest.len() implies reencodes(#[trigger] rest[i]) by {
            assert(rest[i] == frames[i + 1]);
        }
        lemma_frames_of_frames_bytes(before + own, rest);
        lemma_scan_step(region, idx, frame);
        assert(seq![frame] + rest =~= frames);
    }
}

/// The tag that decoding yields is decoded.
pub proof fn lemma_tag_of_is_decoded(bytes: Seq<u8>)
    ensures
        tag_of(bytes) matches Ok(tag) ==> is_decoded(tag),
{
    if let Ok(tag) = tag_of(bytes) {
        lemma_tag_of_wf(bytes);
        let end = if has_footer(bytes) {
            bytes.len() - 10
        } else {
            bytes.len() as int
        };
        let region = bytes.subrange(10, end);
        let start = match tag.extended_header {
            Some(e) => e.size as int,
            None => 0int,
        };
        lemma_frames_reencode(region.subrange(start, region.len() as int), 0);
        assert(tag.header.identifier@ =~= seq![0x49u8, 0x44u8, 0x33u8]);
        match tag.footer {
            Some(f) => {
                assert(f.identifier@ =~= seq![0x33u8, 0x44u8, 0x49u8]);
            },
            None => {},
        }
    }
}

/// The serialized bytes of a well-formed tag are its header's bytes, its
/// body and its footer's bytes.
proof fn lemma_tag_parts(tag: TagView)
    requires
        tag.wf(),
    ensures
        tag.spec_bytes() == tag.header.spec_bytes() + tag.body_bytes() + tag.footer_bytes(),
        tag.header.spec_bytes().len() == 10,
        tag.spec_bytes().len() == 10 + tag.body_bytes().len() + tag.footer_bytes().len(),
        tag.spec_bytes().subrange(10, 10 + tag.body_bytes().len() as int) == tag.body_bytes(),
        tag.footer_bytes().len() == (if tag.footer is Some {
            10int
        } else {
            0int
        }),
{
    let out = tag.spec_bytes();
    assert(out.subrange(10, 10 + tag.body_bytes().len() as int) =~= tag.body_bytes());
}

/// The header that the serialized bytes of a header spell is that header,
/// if its size fits a synchsafe field.
proof fn lemma_header_reread(header: Id3v2Header, bytes: Seq<u8>)
    requires
        header.size <= SYNCHSAFE_MAX,
        bytes.len() >= 10,
        bytes.subrange(0, 10) == header.spec_bytes(),
    ensures
        header_of(bytes) == header,
{
    let own = header.spec_bytes();
    let part = bytes.subrange(0, 10);
    assert(bytes[0] == part[0] && bytes[1] == part[1] && bytes[2] == part[2] && bytes[3]
        == part[3] && bytes[4] == part[4] && bytes[5] == part[5] && bytes[6] == part[6]
        && bytes[7] == part[7] && bytes[8] == part[8] && bytes[9] == part[9]);
    lemma_synchsafe_u32_roundtrip(header.size);
    let e = u32_synchsafe(header.size);
    assert(own[6] == e[0] && own[7] == e[1] && own[8] == e[2] && own[9] == e[3]);
    assert(header_of(bytes).identifier =~= header.identifier);
    assert(header_of(bytes).version =~= header.version);
}

/// A region that begins with the serialized bytes of a decoded extended
/// header whose size field states the length of its fields holds an
/// extended header of that size, with the same optional fields.
proof fn lemma_extended_header_reread(e: Id3v2ExtendedHeader, region: Seq<u8>)
    requires
        extended_header_is_decoded(e),
        e.size == e.spec_len(),
        e.spec_bytes().len() <= region.len(),
        region.subrange(0, e.spec_bytes().len() as int) == e.spec_bytes(),
    ensures
        extended_header_fits(region),
        extended_header_of(region).size == e.size,
        extended_header_of(region).spec_bytes().len() == e.spec_bytes().len(),
        e.spec_bytes().len() == e.size,
{
    let own = e.spec_bytes();
    e.lemma_spec_len();
    let part = region.subrange(0, own.len() as int);
    lemma_synchsafe_u32_roundtrip(e.size);
    let s = u32_synchsafe(e.size);
    assert(own[0] == s[0] && own[1] == s[1] && own[2] == s[2] && own[3] == s[3]);
    assert(own[5] == e.flags);
    assert(region[0] == part[0] && region[1] == part[1] && region[2] == part[2] && region[3]
        == part[3] && region[5] == part[5]);
    assert(extended_header_len(e.flags) == e.spec_len());
    extended_header_of(region).lemma_spec_len();
}

/// Decoding the body of a decoded tag from its serialized bytes yields the
/// tag's frames, and an extended header of the same length exactly if the
/// tag holds one, provided that the extended header's size field states the
/// length of its fields.
proof fn lemma_body_round_trip(tag: TagView)
    requires
        is_decoded(tag),
        tag.extended_header matches Some(e) ==> e.size == e.spec_len(),
    ensures
        body_of(tag.header.flags, tag.body_bytes()) matches Ok((extended_header, frames))
            && frames == tag.frames && (extended_header is Some) == (tag.extended_header is Some)
            && (extended_header matches Some(e) ==> e.spec_bytes().len()
            == tag.extended_header_bytes().len()),
{
    let region = tag.body_bytes();
    let ext = tag.extended_header_bytes();
    match tag.extended_header {
        Some(e) => {
            assert(region.subrange(0, ext.len() as int) =~= ext);
            lemma_extended_header_reread(e, region);
        },
        None => {},
    }
    assert(region.subrange(ext.len() as int, region.len() as int) =~= frames_bytes(tag.frames));
    lemma_frames_of_frames_bytes(Seq::<u8>::empty(), tag.frames);
    assert(Seq::<u8>::empty() + frames_bytes(tag.frames) =~= frames_bytes(tag.frames));
}

/// In the serialized bytes of a decoded tag that keeps its layout, the
/// identifier and the footer are found again, and what lies between header
/// and footer is the tag's body.
proof fn lemma_layout_reread(tag: TagView)
    requires
        tag.wf(),
        tag.header.identifier@ == seq![0x49u8, 0x44u8, 0x33u8],
        tag.footer matches Some(f) ==> f.identifier@ == seq![0x33u8, 0x44u8, 0x49u8],
        tag.footer is None ==> !has_footer(tag.spec_bytes()),
    ensures
        has_identifier(tag.spec_bytes()),
        has_footer(tag.spec_bytes()) == (tag.footer is Some),
        header_of(tag.spec_bytes()) == tag.header,
        tag.spec_bytes().len() == 10 + tag.body_bytes().len() + (if tag.footer is Some {
            10int
        } else {
            0int
        }),
        tag.spec_bytes().subrange(10, 10 + tag.body_bytes().len() as int) == tag.body_bytes(),
{
    let out = tag.spec_bytes();
    let head = tag.header.spec_bytes();
    lemma_tag_parts(tag);
    assert(out.subrange(0, 10) =~= head);
    lemma_header_reread(tag.header, out);
    assert(has_identifier(out)) by {
        let id = tag.header.identifier@;
        assert(id[0] == 0x49 && id[1] == 0x44 && id[2] == 0x33);
        assert(header_of(out).identifier[0] == id[0] && header_of(out).identifier[1] == id[1]
            && header_of(out).identifier[2] == id[2]);
    }
    match tag.footer {
        Some(f) => {
            let foot = f.spec_bytes();
            let at = out.len() - 10;
            assert(forall|j: int| 0 <= j < 10 ==> out[at + j] == foot[j]);
            let id = f.identifier@;
            assert(id[0] == 0x33 && id[1] == 0x44 && id[2] == 0x49);
            assert(out[at] == foot[0] && out[at + 1] == foot[1] && out[at + 2] == foot[2]);
        },
        None => {},
    }
}

/// Decoding the serialized bytes of a decoded tag that keeps its layout
/// succeeds, and yields a tag with the same header, and so the same size,
/// and the same frames.
pub proof fn lemma_decoded_tag_round_trip(tag: TagView)
    requires
        is_decoded(tag),
        keeps_layout(tag),
    ensures
        tag_of(tag.spec_bytes()) matches Ok(again) && again.header == tag.header && again.frames
            == tag.frames && (again.extended_header is Some) == (tag.extended_header is Some) && (
        again.footer is Some) == (tag.footer is Some),
{
    lemma_layout_reread(tag);
    lemma_body_round_trip(tag);
}

/// Decoding, encoding and decoding again: the second decoding succeeds and
/// yields a tag with the header, and so the size, and the frames of the
/// first, provided that serializing the first keeps its layout.
pub proof fn lemma_decode_inverts_encode(bytes: Seq<u8>)
    requires
        tag_of(bytes) matches Ok(tag) && keeps_layout(tag),
    ensures
        tag_of(bytes) matches Ok(tag) && tag_of(tag.spec_bytes()) matches Ok(again)
            && again.header == tag.header && again.frames == tag.frames,
{
    lemma_tag_of_is_decoded(bytes);
    lemma_decoded_tag_round_trip(tag_of(bytes).unwrap());
}

/// The text frame that a setter builds for one of the text identifiers
/// decodes again from its serialized bytes, if its size fits a synchsafe
/// field.
pub proof fn lemma_new_text_frame_reencodes(id: [u8; 4], encoding: u8, text: Seq<u8>)
    requires
        is_text_identifier(id),
        text.len() + 1 <= SYNCHSAFE_MAX,
    ensures
        reencodes(new_text_frame_view(id, encoding, text)),
{
    let frame = new_text_frame_view(id, encoding, text);
    lemma_frame_header_reread(frame);
    let payload = frame.payload();
    assert(payload.subrange(1, payload.len() as int) =~= text);
    assert(SONG_TITLE[0] == 0x54 && SONG_ARTIST[0] == 0x54 && ALBUM_TITLE[0] == 0x54
        && ALBUM_ARTIST[0] == 0x54 && ENCODER_SETTINGS[0] == 0x54);
}

/// The picture frame that a setter builds decodes again from its
/// serialized bytes, if neither terminated field holds a zero byte and its
/// size fits a synchsafe field.
pub proof fn lemma_new_picture_frame_reencodes(picture: PictureView)
    requires
        picture.is_terminated(),
        picture.spec_bytes().len() <= SYNCHSAFE_MAX,
    ensures
        reencodes(new_picture_frame_view(picture)),
{
    let frame = new_picture_frame_view(picture);
    lemma_frame_header_reread(frame);
    lemma_scan_picture_complete(frame->Picture_picture);
    assert(ATTACHED_PICTURE[0] == 0x41 && ATTACHED_PICTURE != SONG_TITLE && ATTACHED_PICTURE
        != SONG_ARTIST && ATTACHED_PICTURE != ALBUM_TITLE && ATTACHED_PICTURE != ALBUM_ARTIST
        && ATTACHED_PICTURE != ENCODER_SETTINGS) by {
        assert(SONG_TITLE[0] == 0x54 && SONG_ARTIST[0] == 0x54 && ALBUM_TITLE[0] == 0x54
            && ALBUM_ARTIST[0] == 0x54 && ENCODER_SETTINGS[0] == 0x54);
    }
}

/// An edit of a decoded tag with a frame that decodes again leaves the tag
/// decoded: what the setters make of a decoded tag can be serialized and
/// decoded like the tag itself.
pub proof fn lemma_put_frame_keeps_decoded(tag: TagView, frame: FrameView)
    requires
        is_decoded(tag),
        reencodes(frame),
    ensures
        tag.put_frame(frame) matches Ok(edited) ==> is_decoded(edited),
{
    if let Ok(edited) = tag.put_frame(frame) {
        lemma_put_frame_wf(tag, frame);
        let i = first_with_id(tag.frames, frame.header().identifier, 0);
        lemma_first_with_id(tag.frames, frame.header().identifier, 0);
        assert forall|j: int| 0 <= j < edited.frames.len() implies reencodes(
            #[trigger] edited.frames[j],
        ) by {
            if j != i {
                assert(edited.frames[j] == tag.frames[j]);
            }
        }
    }
}

} // verus!
