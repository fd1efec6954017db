//! Replacing the well-known frames of a tag while its size stays exact.

use crate::error::Error;
use crate::tag::{
    frames_view, lemma_frame_len, lemma_frames_bytes_push, lemma_frames_bytes_update, Frame,
    FrameView, Id3v2FrameHeader, Id3v2Header, Id3v2PictureFrame, Id3v2Tag, Id3v2TextFrame,
    Picture, PictureView, TagView, TextInformation, COVER_PICTURE_TYPE, UTF8_ENCODING,
};
use crate::utility::SYNCHSAFE_MAX;
use vstd::prelude::*;
use vstd::string::*;
use vstd::utf8::encode_utf8;

verus! {

/// The identifier of the song title frame, `TIT2`.
pub const SONG_TITLE: [u8; 4] = [0x54, 0x49, 0x54, 0x32];

/// The identifier of the song artist frame, `TPE1`.
pub const SONG_ARTIST: [u8; 4] = [0x54, 0x50, 0x45, 0x31];

/// The identifier of the album title frame, `TALB`.
pub const ALBUM_TITLE: [u8; 4] = [0x54, 0x41, 0x4C, 0x42];

/// The identifier of the album artist frame, `TPE2`.
pub const ALBUM_ARTIST: [u8; 4] = [0x54, 0x50, 0x45, 0x32];

/// The identifier of the encoder settings frame, `TSSE`.
pub const ENCODER_SETTINGS: [u8; 4] = [0x54, 0x53, 0x53, 0x45];

/// The identifier of the attached picture frame, `APIC`.
pub const ATTACHED_PICTURE: [u8; 4] = [0x41, 0x50, 0x49, 0x43];

/// The index of the first frame at or after `from` that carries `id`, or the
/// number of frames if there is none.
pub open spec fn first_with_id(frames: Seq<FrameView>, id: [u8; 4], from: int) -> int
    decreases frames.len() - from,
{
    if from < 0 || from >= frames.len() {
        frames.len() as int
    } else if frames[from].header().identifier == id {
        from
    } else {
        first_with_id(frames, id, from + 1)
    }
}

/// The number of frames that carry `id`.
pub open spec fn count_with_id(frames: Seq<FrameView>, id: [u8; 4]) -> nat
    decreases frames.len(),
{
    if frames.len() == 0 {
        0
    } else {
        count_with_id(frames.drop_last(), id) + (if frames.last().header().identifier == id {
            1nat
        } else {
            0nat
        })
    }
}

/// `first_with_id` is the least index at or after `from` whose frame
/// carries `id`.
pub proof fn lemma_first_with_id(frames: Seq<FrameView>, id: [u8; 4], from: int)
    requires
        0 <= from <= frames.len(),
    ensures
        from <= first_with_id(frames, id, from) <= frames.len(),
        first_with_id(frames, id, from) < frames.len() ==> frames[first_with_id(
            frames,
            id,
            from,
        )].header().identifier == id,
        forall|j: int|
            from <= j < first_with_id(frames, id, from) ==> (
            #[trigger] frames[j]).header().identifier != id,
    decreases frames.len() - from,
{
    if from < frames.len() && frames[from].header().identifier != id {
        lemma_first_with_id(frames, id, from + 1);
    }
}

/// The text frame that a setter builds: flags clear, size one more than
/// the text's length.
pub open spec fn new_text_frame_view(id: [u8; 4], encoding: u8, data: Seq<u8>) -> FrameView {
    FrameView::Text {
        header: Id3v2FrameHeader {
            identifier: id,
            size: (data.len() + 1) as u32,
            flags: [0u8, 0u8],
        },
        encoding,
        data,
    }
}

/// The picture frame that a setter builds: flags clear, size the payload's
/// length, picture type front cover.
pub open spec fn new_picture_frame_view(picture: PictureView) -> FrameView {
    FrameView::Picture {
        header: Id3v2FrameHeader {
            identifier: ATTACHED_PICTURE,
            size: picture.spec_bytes().len() as u32,
            flags: [0u8, 0u8],
        },
        picture: PictureView {
            encoding: picture.encoding,
            mime: picture.mime,
            picture_type: COVER_PICTURE_TYPE,
            description: picture.description,
            data: picture.data,
        },
    }
}

impl FrameView {
    /// Whether both frames are text frames or both picture frames.
    pub open spec fn same_kind(self, other: FrameView) -> bool {
        (self is Text) == (other is Text)
    }
}

impl TagView {
    /// The tag with other frames and another size in its header.
    pub open spec fn with_frames(self, frames: Seq<FrameView>, size: int) -> TagView {
        TagView {
            header: Id3v2Header {
                identifier: self.header.identifier,
                version: self.header.version,
                flags: self.header.flags,
                size: size as u32,
            },
            extended_header: self.extended_header,
            frames,
            footer: self.footer,
        }
    }

    /// Puts `frame` in the place of the first frame with its identifier, or
    /// behind the last frame if there is none, and moves the header's size
    /// by the change in serialized length. Fails if the frame found is of
    /// the other kind, or if the new size does not fit a synchsafe field.
    pub open spec fn put_frame(self, frame: FrameView) -> Result<TagView, Error> {
        let i = first_with_id(self.frames, frame.header().identifier, 0);
        if i < self.frames.len() {
            let size = self.header.size - self.frames[i].spec_bytes().len()
                + frame.spec_bytes().len();
            if !self.frames[i].same_kind(frame) {
                Err(Error::FrameKindMismatch)
            } else if size > SYNCHSAFE_MAX {
                Err(Error::TagTooLarge)
            } else {
                Ok(self.with_frames(self.frames.update(i, frame), size))
            }
        } else {
            let size = self.header.size + frame.spec_bytes().len();
            if size > SYNCHSAFE_MAX {
                Err(Error::TagTooLarge)
            } else {
                Ok(self.with_frames(self.frames.push(frame), size))
            }
        }
    }

    /// Sets the text frame `id` to the UTF-8 text `text`.
    pub open spec fn set_text(self, id: [u8; 4], text: Seq<u8>) -> Result<TagView, Error> {
        self.put_frame(new_text_frame_view(id, UTF8_ENCODING, text))
    }

    /// Sets the attached picture to `picture`, as a front cover.
    pub open spec fn set_picture(self, picture: PictureView) -> Result<TagView, Error> {
        self.put_frame(new_picture_frame_view(picture))
    }
}

/// How a setter's result and the tag after the call follow from what the
/// edit yields on the tag before the call: on failure the tag is unchanged.
pub open spec fn edit_outcome(
    before: TagView,
    edit: Result<TagView, Error>,
    after: TagView,
    result: Result<(), Error>,
) -> bool {
    match edit {
        Ok(tag) => result is Ok && after == tag,
        Err(e) => result == Err::<(), Error>(e) && after == before,
    }
}

/// An edit of a well-formed tag with a well-formed frame leaves the tag
/// well-formed.
pub proof fn lemma_put_frame_wf(tag: TagView, frame: FrameView)
    requires
        tag.wf(),
        frame.wf(),
    ensures
        tag.put_frame(frame) matches Ok(t) ==> t.wf(),
{
    let i = first_with_id(tag.frames, frame.header().identifier, 0);
    lemma_first_with_id(tag.frames, frame.header().identifier, 0);
    if i < tag.frames.len() {
        lemma_frames_bytes_update(tag.frames, i, frame);
    } else {
        lemma_frames_bytes_push(tag.frames, frame);
    }
}

impl Id3v2Tag {
    /// Builds a text frame around `data`.
    fn new_text_frame(frame_id: [u8; 4], encoding: u8, data: Vec<u8>) -> (frame: Id3v2TextFrame)
        requires
            data@.len() < u32::MAX,
        ensures
            frame@ == new_text_frame_view(frame_id, encoding, data@),
            frame@.wf(),
    {
        Id3v2TextFrame {
            header: Id3v2FrameHeader {
                identifier: frame_id,
                size: data.len() as u32 + 1,
                flags: [0x00, 0x00],
            },
            info: TextInformation { encoding, data },
        }
    }

    /// Builds a cover picture frame around `picture`.
    fn new_attached_picture_frame(picture: Picture, size: u32) -> (frame: Id3v2PictureFrame)
        requires
            size == picture@.spec_bytes().len(),
        ensures
            frame@ == new_picture_frame_view(picture@),
            frame@.wf(),
    {
        Id3v2PictureFrame {
            header: Id3v2FrameHeader {
                identifier: ATTACHED_PICTURE,
                size,
                flags: [0x00, 0x00],
            },
            picture: Picture {
                encoding: picture.encoding,
                mime: picture.mime,
                picture_type: COVER_PICTURE_TYPE,
                description: picture.description,
                data: picture.data,
            },
        }
    }

    /// The index of the first frame that carries `id`, or the number of
    /// frames if there is none.
    fn position(&self, id: &[u8; 4]) -> (idx: usize)
        ensures
            idx == first_with_id(self@.frames, *id, 0),
            idx <= self.frames@.len(),
    {
        let mut i: usize = 0;
        while i < self.frames.len()
            invariant
                i <= self.frames@.len(),
                first_with_id(self@.frames, *id, 0) == first_with_id(self@.frames, *id, i as int),
            decreases self.frames@.len() - i,
        {
            let found = match &self.frames[i] {
                Frame::Text(x) => x.header.has_identifier(id),
                Frame::Picture(x) => x.header.has_identifier(id),
            };
            assert(self@.frames[i as int] == self.frames@[i as int]@);
            if found {
                return i;
            }
            i += 1;
        }
        i
    }

    /// The serialized length of the frame at `idx` that a frame of the
    /// given kind would replace: zero if `idx` is behind the last frame.
    fn replaced_len(&self, idx: usize, text: bool) -> (len: Result<u64, Error>)
        requires
            self.wf(),
            idx <= self.frames@.len(),
        ensures
            idx == self.frames@.len() ==> len == Ok::<u64, Error>(0),
            idx < self.frames@.len() ==> len == (if (self@.frames[idx as int] is Text) == text {
                Ok::<u64, Error>(self@.frames[idx as int].spec_bytes().len() as u64)
            } else {
                Err::<u64, Error>(Error::FrameKindMismatch)
            }),
            idx < self.frames@.len() ==> self@.frames[idx as int].spec_bytes().len()
                <= self.header.size,
    {
        if idx < self.frames.len() {
            proof {
                let f = self@.frames[idx as int];
                assert(f == self.frames@[idx as int]@);
                assert(f.wf());
                lemma_frame_len(f);
                lemma_frames_bytes_update(self@.frames, idx as int, f);
            }
            match &self.frames[idx] {
                Frame::Text(x) => if text {
                    Ok(x.header.size as u64 + 10)
                } else {
                    Err(Error::FrameKindMismatch)
                },
                Frame::Picture(x) => if text {
                    Err(Error::FrameKindMismatch)
                } else {
                    Ok(x.header.size as u64 + 10)
                },
            }
        } else {
            Ok(0)
        }
    }

    /// Stores `frame` at `idx`, or behind the last frame, and sets the
    /// header's size.
    fn store(&mut self, idx: usize, frame: Frame, size: u32)
        requires
            old(self).wf(),
            frame@.wf(),
            idx == first_with_id(old(self)@.frames, frame@.header().identifier, 0),
            old(self)@.put_frame(frame@) == Ok::<TagView, Error>(
                old(self)@.with_frames(
                    if idx < old(self).frames@.len() {
                        old(self)@.frames.update(idx as int, frame@)
                    } else {
                        old(self)@.frames.push(frame@)
                    },
                    size as int,
                ),
            ),
        ensures
            Ok::<TagView, Error>(final(self)@) == old(self)@.put_frame(frame@),
            final(self).wf(),
    {
        proof {
            lemma_put_frame_wf(self@, frame@);
        }
        let ghost before = self@;
        if idx < self.frames.len() {
            self.frames.set(idx, frame);
            assert(frames_view(self.frames@) =~= before.frames.update(idx as int, frame@));
        } else {
            self.frames.push(frame);
            assert(frames_view(self.frames@) =~= before.frames.push(frame@));
        }
        self.header.size = size;
    }

    /// Sets the text frame `frame_id` to `data`, with the UTF-8 marker:
    /// replaces the first frame with that identifier, or appends one.
    fn set_text_frame(&mut self, frame_id: [u8; 4], data: Vec<u8>) -> (result: Result<(), Error>)
        requires
            old(self).wf(),
        ensures
            final(self).wf(),
            edit_outcome(old(self)@, old(self)@.set_text(frame_id, data@), final(self)@, result),
    {
        let idx = self.position(&frame_id);
        let ghost frame = new_text_frame_view(frame_id, UTF8_ENCODING, data@);
        proof {
            lemma_frame_len(frame);
        }
        let old_len = match self.replaced_len(idx, true) {
            Ok(n) => n,
            Err(e) => {
                return Err(e);
            },
        };
        if data.len() > SYNCHSAFE_MAX as usize {
            return Err(Error::TagTooLarge);
        }
        let size: u64 = self.header.size as u64 - old_len + data.len() as u64 + 11;
        if size > SYNCHSAFE_MAX as u64 {
            return Err(Error::TagTooLarge);
        }
        let new_frame = Frame::Text(Self::new_text_frame(frame_id, UTF8_ENCODING, data));
        self.store(idx, new_frame, size as u32);
        Ok(())
    }

    /// Sets the attached picture: replaces the first `APIC` frame, or
    /// appends one.
    fn set_attached_picture_frame(&mut self, picture: Picture) -> (result: Result<(), Error>)
        requires
            old(self).wf(),
        ensures
            final(self).wf(),
            edit_outcome(old(self)@, old(self)@.set_picture(picture@), final(self)@, result),
    {
        let idx = self.position(&ATTACHED_PICTURE);
        let ghost frame = new_picture_frame_view(picture@);
        proof {
            lemma_frame_len(frame);
        }
        let old_len = match self.replaced_len(idx, false) {
            Ok(n) => n,
            Err(e) => {
                return Err(e);
            },
        };
        let payload = match picture.bounded_size() {
            Some(n) => n,
            None => {
                return Err(Error::TagTooLarge);
            },
        };
        let size: u64 = self.header.size as u64 - old_len + payload as u64 + 10;
        if size > SYNCHSAFE_MAX as u64 {
            return Err(Error::TagTooLarge);
        }
        let new_frame = Frame::Picture(Self::new_attached_picture_frame(picture, payload));
        self.store(idx, new_frame, size as u32);
        Ok(())
    }

    /// Sets the song title, frame `TIT2`, to the bytes of `song_title`.
    ///
    /// The first frame that carries `TIT2` is replaced where it stands; if
    /// there is none, a frame is appended. The new frame has the UTF-8
    /// marker and clear flags, and the header's size moves by the change in
    /// serialized length. Fails with `FrameKindMismatch` if the frame found
    /// is a picture frame, and with `TagTooLarge` if the body would outgrow
    /// a synchsafe size field; the tag is then unchanged.
    pub fn set_song_title(&mut self, song_title: String) -> (result: Result<(), Error>)
        requires
            old(self).wf(),
        ensures
            final(self).wf(),
            edit_outcome(
                old(self)@,
                old(self)@.set_text(SONG_TITLE, encode_utf8(song_title@)),
                final(self)@,
                result,
            ),
    {
        self.set_text_frame(SONG_TITLE, song_title.as_str().as_bytes_vec())
    }

    /// Sets the song artist's name, frame `TPE1`, as `set_song_title` sets
    /// the title.
    pub fn set_song_artist_name(&mut self, song_artist_name: String) -> (result: Result<
        (),
        Error,
    >)
        requires
            old(self).wf(),
        ensures
            final(self).wf(),
            edit_outcome(
                old(self)@,
                old(self)@.set_text(SONG_ARTIST, encode_utf8(song_artist_name@)),
                final(self)@,
                result,
            ),
    {
        self.set_text_frame(SONG_ARTIST, song_artist_name.as_str().as_bytes_vec())
    }

    /// Sets the album's title, frame `TALB`, as `set_song_title` sets the
    /// title.
    pub fn set_album_title(&mut self, album_title: String) -> (result: Result<(), Error>)
        requires
            old(self).wf(),
        ensures
            final(self).wf(),
            edit_outcome(
                old(self)@,
                old(self)@.set_text(ALBUM_TITLE, encode_utf8(album_title@)),
                final(self)@,
                result,
            ),
    {
        self.set_text_frame(ALBUM_TITLE, album_title.as_str().as_bytes_vec())
    }

    /// Sets the album artist's name, frame `TPE2`, as `set_song_title`
    /// sets the title.
    pub fn set_album_artist_name(&mut self, album_artist_name: String) -> (result: Result<
        (),
        Error,
    >)
        requires
            old(self).wf(),
        ensures
            final(self).wf(),
            edit_outcome(
                old(self)@,
                old(self)@.set_text(ALBUM_ARTIST, encode_utf8(album_artist_name@)),
                final(self)@,
                result,
            ),
    {
        self.set_text_frame(ALBUM_ARTIST, album_artist_name.as_str().as_bytes_vec())
    }

    /// Sets the cover art, frame `APIC`. The picture is stored as a front
    /// cover whatever picture type it came with.
    ///
    /// The first frame that carries `APIC` is replaced where it stands; if
    /// there is none, a frame is appended. The header's size moves by the
    /// change in serialized length. Fails with `FrameKindMismatch` if the
    /// frame found is a text frame, and with `TagTooLarge` if the body
    /// would outgrow a synchsafe size field; the tag is then unchanged.
    pub fn set_cover_art(&mut self, picture: Picture) -> (result: Result<(), Error>)
        requires
            old(self).wf(),
        ensures
            final(self).wf(),
            edit_outcome(old(self)@, old(self)@.set_picture(picture@), final(self)@, result),
    {
        self.set_attached_picture_frame(picture)
    }
}

} // verus!
