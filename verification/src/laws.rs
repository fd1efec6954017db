//! Laws that relate decoding, editing and encoding.

use crate::edit::{
    count_with_id, first_with_id, lemma_first_with_id, new_picture_frame_view,
    new_text_frame_view, ATTACHED_PICTURE,
};
use crate::error::Error;
use crate::parse::{
    extended_header_present, frame_of, frames_of, has_footer, has_identifier, is_padding_at,
    tag_of,
};
use crate::tag::{
    lemma_frame_len, lemma_frames_bytes_push, lemma_frames_bytes_update, FrameView,
    PictureView, TagView,
};
use crate::utility::{synchsafe_u32, u32_synchsafe};
use vstd::prelude::*;

verus! {

/// A tag with no extended header, no frames and no footer serializes to
/// ten bytes, and its size field is zero.
pub proof fn lemma_empty_tag_bytes(tag: TagView)
    requires
        tag.extended_header is None,
        tag.frames.len() == 0,
        tag.footer is None,
    ensures
        tag.spec_bytes().len() == 10,
        tag.spec_bytes().subrange(6, 10) == seq![0u8, 0u8, 0u8, 0u8],
        tag.spec_bytes().subrange(0, 6) == tag.header.spec_bytes().subrange(0, 6),
{
    assert(tag.body_bytes().len() == 0);
    assert((0u32 >> 21) & 0x7f == 0 && (0u32 >> 14) & 0x7f == 0 && (0u32 >> 7) & 0x7f == 0 && 0u32
        & 0x7f == 0) by (bit_vector);
    assert(u32_synchsafe(0) =~= seq![0u8, 0u8, 0u8, 0u8]);
    assert(tag.spec_bytes().subrange(6, 10) =~= u32_synchsafe(0));
    assert(tag.spec_bytes().subrange(0, 6) =~= tag.header.spec_bytes().subrange(0, 6));
}

/// No frame carries `id` exactly if the search for it runs to the end.
pub proof fn lemma_count_zero(frames: Seq<FrameView>, id: [u8; 4])
    ensures
        count_with_id(frames, id) == 0 <==> first_with_id(frames, id, 0) == frames.len(),
        count_with_id(frames, id) == 0 <==> forall|j: int|
            0 <= j < frames.len() ==> (#[trigger] frames[j]).header().identifier != id,
    decreases frames.len(),
{
    lemma_first_with_id(frames, id, 0);
    if frames.len() > 0 {
        let front = frames.drop_last();
        lemma_count_zero(front, id);
        lemma_first_with_id(front, id, 0);
        if count_with_id(frames, id) == 0 {
            assert forall|j: int| 0 <= j < frames.len() implies (
            #[trigger] frames[j]).header().identifier != id by {
                if j < front.len() {
                    assert(front[j] == frames[j]);
                }
            }
        } else if frames.last().header().identifier != id {
            let j = choose|j: int|
                0 <= j < front.len() && (#[trigger] front[j]).header().identifier == id;
            assert(frames[j] == front[j]);
        }
    }
}

/// Appending a frame adds one to the count of its identifier; replacing a
/// frame by one with the same identifier leaves every count as it was.
pub proof fn lemma_count_after_edit(frames: Seq<FrameView>, frame: FrameView, i: int)
    ensures
        count_with_id(frames.push(frame), frame.header().identifier) == count_with_id(
            frames,
            frame.header().identifier,
        ) + 1,
        0 <= i < frames.len() && frames[i].header().identifier == frame.header().identifier
            ==> count_with_id(frames.update(i, frame), frame.header().identifier) == count_with_id(
            frames,
            frame.header().identifier,
        ),
    decreases frames.len(),
{
    let id = frame.header().identifier;
    assert(frames.push(frame).drop_last() =~= frames);
    if 0 <= i < frames.len() && frames[i].header().identifier == id {
        let front = frames.drop_last();
        if i == frames.len() - 1 {
            assert(frames.update(i, frame).drop_last() =~= front);
        } else {
            lemma_count_after_edit(front, frame, i);
            assert(frames.update(i, frame).drop_last() =~= front.update(i, frame));
        }
    }
}

/// Setting a text frame a second time to the same text changes nothing:
/// the tag, and so its size, is as after the first call. After a call
/// that succeeds, the tag holds one frame with that identifier if it held
/// none before, and as many as before otherwise.
pub proof fn lemma_set_text_idempotent(tag: TagView, id: [u8; 4], text: Seq<u8>)
    requires
        tag.wf(),
    ensures
        tag.set_text(id, text) matches Ok(once) ==> once.set_text(id, text) == Ok::<
            TagView,
            Error,
        >(once) && count_with_id(once.frames, id) == (if count_with_id(tag.frames, id) == 0 {
            1nat
        } else {
            count_with_id(tag.frames, id)
        }),
        tag.set_text(id, text) matches Ok(once) ==> (count_with_id(tag.frames, id) <= 1
            ==> count_with_id(once.frames, id) == 1),
{
    let frame = new_text_frame_view(id, crate::tag::UTF8_ENCODING, text);
    lemma_put_frame_idempotent(tag, frame);
}

/// Putting the same frame a second time changes nothing, and a `put_frame`
/// that succeeds leaves one frame with the identifier if there was none,
/// and as many as before otherwise.
pub proof fn lemma_put_frame_idempotent(tag: TagView, frame: FrameView)
    requires
        tag.wf(),
    ensures
        tag.put_frame(frame) matches Ok(once) ==> once.put_frame(frame) == Ok::<TagView, Error>(
            once,
        ) && count_with_id(once.frames, frame.header().identifier) == (if count_with_id(
            tag.frames,
            frame.header().identifier,
        ) == 0 {
            1nat
        } else {
            count_with_id(tag.frames, frame.header().identifier)
        }),
{
    let id = frame.header().identifier;
    if let Ok(once) = tag.put_frame(frame) {
        let i = first_with_id(tag.frames, id, 0);
        lemma_first_with_id(tag.frames, id, 0);
        lemma_count_zero(tag.frames, id);
        lemma_count_after_edit(tag.frames, frame, i);
        lemma_frame_len(frame);
        if i < tag.frames.len() {
            lemma_frames_bytes_update(tag.frames, i, frame);
        } else {
            lemma_frames_bytes_push(tag.frames, frame);
        }
        lemma_first_with_id(once.frames, id, 0);
        let k = first_with_id(once.frames, id, 0);
        assert(once.frames[i] == frame);
        if k < i {
            assert(once.frames[k] == tag.frames[k]);
        }
        assert(k == i);
        assert(once.frames.update(i, frame) =~= once.frames);
    }
}

/// Where no frame carries `APIC`, setting the cover art appends one frame
/// and adds that frame's serialized length to the header's size; setting it
/// again replaces that frame where it stands, and the number of frames
/// stays.
pub proof fn lemma_set_picture_appends_then_replaces(
    tag: TagView,
    first: PictureView,
    second: PictureView,
)
    requires
        tag.wf(),
        count_with_id(tag.frames, ATTACHED_PICTURE) == 0,
    ensures
        tag.set_picture(first) matches Ok(once) ==> {
            &&& once.frames == tag.frames.push(new_picture_frame_view(first))
            &&& once.header.size == tag.header.size + new_picture_frame_view(
                first,
            ).spec_bytes().len()
            &&& once.set_picture(second) matches Ok(twice) ==> {
                &&& twice.frames == once.frames.update(
                    tag.frames.len() as int,
                    new_picture_frame_view(second),
                )
                &&& twice.frames.len() == once.frames.len()
            }
        },
{
    let id = ATTACHED_PICTURE;
    lemma_count_zero(tag.frames, id);
    if let Ok(once) = tag.set_picture(first) {
        let frame = new_picture_frame_view(first);
        lemma_first_with_id(once.frames, id, 0);
        let k = first_with_id(once.frames, id, 0);
        let n = tag.frames.len() as int;
        assert(once.frames[n] == frame);
        if k < n {
            assert(once.frames[k] == tag.frames[k]);
        }
        assert(k == n);
    }
}

/// A scan that stands before one to ten bytes which do not begin with
/// padding reports a truncated frame.
pub proof fn lemma_short_tail_is_truncated(region: Seq<u8>, idx: int)
    requires
        0 <= idx < region.len(),
        region.len() - idx < 11,
        !is_padding_at(region, idx),
    ensures
        frames_of(region, idx) == Err::<Seq<FrameView>, Error>(Error::TruncatedFrame),
{
}

/// A failure behind a frame that decodes is the failure of the scan that
/// starts at that frame.
pub proof fn lemma_failure_reaches_front(region: Seq<u8>, idx: int, e: Error)
    requires
        0 <= idx,
        idx + 11 <= region.len(),
        !is_padding_at(region, idx),
        ({
            let end = idx + 10 + synchsafe_u32(
                region[idx + 4],
                region[idx + 5],
                region[idx + 6],
                region[idx + 7],
            );
            &&& idx + 10 < end <= region.len()
            &&& frame_of(region.subrange(idx, end)) is Ok
            &&& frames_of(region, end) == Err::<Seq<FrameView>, Error>(e)
        }),
    ensures
        frames_of(region, idx) == Err::<Seq<FrameView>, Error>(e),
{
}

/// A tag without extended header and footer whose header is followed by
/// one to ten bytes which do not begin with padding is reported as
/// truncated.
pub proof fn lemma_short_region_is_truncated(bytes: Seq<u8>)
    requires
        has_identifier(bytes),
        !extended_header_present(bytes[5]),
        !has_footer(bytes),
        10 < bytes.len() < 21,
        !is_padding_at(bytes, 10),
    ensures
        tag_of(bytes) == Err::<TagView, Error>(Error::TruncatedFrame),
{
    let region = bytes.subrange(10, bytes.len() as int);
    assert(region.subrange(0, region.len() as int) =~= region);
    assert(!is_padding_at(region, 0)) by {
        if region.len() >= 4 {
            assert(region[0] == bytes[10] && region[1] == bytes[11] && region[2] == bytes[12]
                && region[3] == bytes[13]);
        }
    }
    lemma_short_tail_is_truncated(region, 0);
}

} // verus!
