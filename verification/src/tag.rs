//! The tag model and its byte layout.

use crate::utility::{
    convert_u32_to_safesynch, convert_u64_to_safesynch, lemma_synchsafe_u32_roundtrip,
    synchsafe_u32, u32_synchsafe, u64_synchsafe, SYNCHSAFE_MAX,
};
use vstd::prelude::*;

verus! {

/// Header flag: an extended header follows the header.
pub const EXTENDED_HEADER_FLAG: u8 = 0x40;

/// Extended-header flag: a five-byte CRC value is present.
pub const CRC_FLAG: u8 = 0x20;

/// Extended-header flag: a restrictions byte is present.
pub const RESTRICTIONS_FLAG: u8 = 0x10;

/// The text encoding marker for UTF-8.
pub const UTF8_ENCODING: u8 = 0x03;

/// The picture type for a front cover.
pub const COVER_PICTURE_TYPE: u8 = 0x03;

/// Appends `src` to `out`.
pub(crate) fn append_slice(out: &mut Vec<u8>, src: &[u8])
    ensures
        final(out)@ == old(out)@ + src@,
{
    let mut i: usize = 0;
    while i < src.len()
        invariant
            i <= src@.len(),
            out@ == old(out)@ + src@.subrange(0, i as int),
        decreases src@.len() - i,
    {
        out.push(src[i]);
        i += 1;
        assert(out@ =~= old(out)@ + src@.subrange(0, i as int));
    }
    assert(src@.subrange(0, i as int) =~= src@);
}

/// The ten-byte tag header; a footer has the same shape.
#[derive(Debug, Clone, Copy, PartialEq, Eq)]
pub struct Id3v2Header {
    /// `ID3` in a header, `3DI` in a footer.
    pub identifier: [u8; 3],
    /// Major version and revision.
    pub version: [u8; 2],
    pub flags: u8,
    /// The number of bytes between header and footer.
    pub size: u32,
}

impl Id3v2Header {
    /// The ten bytes of the header: identifier, version, flags, synchsafe size.
    pub open spec fn spec_bytes(&self) -> Seq<u8> {
        self.identifier@ + self.version@ + seq![self.flags] + u32_synchsafe(self.size)
    }

    /// Serializes the header.
    pub fn into_bytes(&self) -> (bytes: Vec<u8>)
        ensures
            bytes@ == self.spec_bytes(),
            bytes@.len() == 10,
    {
        let mut bytes: Vec<u8> = Vec::new();
        append_slice(&mut bytes, self.identifier.as_slice());
        append_slice(&mut bytes, self.version.as_slice());
        bytes.push(self.flags);
        let size_bytes = convert_u32_to_safesynch(self.size);
        append_slice(&mut bytes, size_bytes.as_slice());
        assert(bytes@ =~= self.spec_bytes());
        bytes
    }
}

/// The optional block between the header and the frames.
#[derive(Debug, Clone, Copy, PartialEq, Eq)]
pub struct Id3v2ExtendedHeader {
    /// The number of bytes that the extended header spans.
    pub size: u32,
    pub number_of_flag_bytes: u8,
    pub flags: u8,
    pub b_flag_length: u8,
    pub c_flag_length: u8,
    /// The CRC value, of at most 35 bits, if the flags announce one.
    pub total_frame_crc: Option<u64>,
    pub d_flag_length: u8,
    /// The restrictions byte, if the flags announce one.
    pub restrictions: Option<u8>,
}

impl Id3v2ExtendedHeader {
    /// The bytes of the extended header: synchsafe size, flag-byte count,
    /// flags, two length bytes, the five CRC bytes if a CRC is held, one more
    /// length byte, and the restrictions byte if one is held.
    pub open spec fn spec_bytes(&self) -> Seq<u8> {
        u32_synchsafe(self.size) + seq![
            self.number_of_flag_bytes,
            self.flags,
            self.b_flag_length,
            self.c_flag_length,
        ] + (match self.total_frame_crc {
            Some(crc) => u64_synchsafe(crc),
            None => Seq::<u8>::empty(),
        }) + seq![self.d_flag_length] + (match self.restrictions {
            Some(r) => seq![r],
            None => Seq::<u8>::empty(),
        })
    }

    /// The number of bytes that the fields take.
    pub open spec fn spec_len(&self) -> int {
        9 + (if self.total_frame_crc is Some {
            5int
        } else {
            0int
        }) + (if self.restrictions is Some {
            1int
        } else {
            0int
        })
    }

    /// The fields take between nine and fifteen bytes.
    pub proof fn lemma_spec_len(&self)
        ensures
            self.spec_bytes().len() == self.spec_len(),
            9 <= self.spec_len() <= 15,
    {
    }

    /// Serializes the extended header.
    pub fn into_bytes(&self) -> (bytes: Vec<u8>)
        ensures
            bytes@ == self.spec_bytes(),
    {
        let mut bytes: Vec<u8> = Vec::new();
        let size_bytes = convert_u32_to_safesynch(self.size);
        append_slice(&mut bytes, size_bytes.as_slice());
        bytes.push(self.number_of_flag_bytes);
        bytes.push(self.flags);
        bytes.push(self.b_flag_length);
        bytes.push(self.c_flag_length);
        match self.total_frame_crc {
            Some(crc) => {
                let crc_bytes = convert_u64_to_safesynch(crc);
                append_slice(&mut bytes, crc_bytes.as_slice());
            },
            None => {},
        }
        bytes.push(self.d_flag_length);
        match self.restrictions {
            Some(r) => {
                bytes.push(r);
            },
            None => {},
        }
        assert(bytes@ =~= self.spec_bytes());
        bytes
    }
}

/// The ten-byte header of a frame.
#[derive(Debug, Clone, Copy, PartialEq, Eq)]
pub struct Id3v2FrameHeader {
    /// Four ASCII characters, such as `TIT2` or `APIC`.
    pub identifier: [u8; 4],
    /// The number of payload bytes behind the frame header.
    pub size: u32,
    pub flags: [u8; 2],
}

impl Id3v2FrameHeader {
    /// The ten bytes of the frame header: identifier, synchsafe size, flags.
    pub open spec fn spec_bytes(&self) -> Seq<u8> {
        self.identifier@ + u32_synchsafe(self.size) + self.flags@
    }

    /// Whether the frame carries the identifier `id`.
    pub fn has_identifier(&self, id: &[u8; 4]) -> (same: bool)
        ensures
            same == (self.identifier == *id),
    {
        let own = &self.identifier;
        let same = own[0] == id[0] && own[1] == id[1] && own[2] == id[2] && own[3] == id[3];
        assert(same == (self.identifier =~= *id));
        same
    }

    /// Serializes the frame header.
    pub fn into_bytes(&self) -> (bytes: Vec<u8>)
        ensures
            bytes@ == self.spec_bytes(),
            bytes@.len() == 10,
    {
        let mut bytes: Vec<u8> = Vec::new();
        append_slice(&mut bytes, self.identifier.as_slice());
        let size_bytes = convert_u32_to_safesynch(self.size);
        append_slice(&mut bytes, size_bytes.as_slice());
        append_slice(&mut bytes, self.flags.as_slice());
        assert(bytes@ =~= self.spec_bytes());
        bytes
    }
}

/// The payload of a text frame.
#[derive(Debug, Clone, PartialEq, Eq)]
pub struct TextInformation {
    /// The marker of the text's encoding; `0x03` for UTF-8.
    pub encoding: u8,
    /// The text as it stands in the frame.
    pub data: Vec<u8>,
}

impl TextInformation {
    /// The payload bytes: the encoding byte, then the text.
    pub open spec fn spec_bytes(&self) -> Seq<u8> {
        seq![self.encoding] + self.data@
    }

    /// Serializes the payload.
    pub fn into_bytes(&self) -> (bytes: Vec<u8>)
        ensures
            bytes@ == self.spec_bytes(),
    {
        let mut bytes: Vec<u8> = Vec::new();
        bytes.push(self.encoding);
        append_slice(&mut bytes, self.data.as_slice());
        assert(bytes@ =~= self.spec_bytes());
        bytes
    }
}

/// A frame that carries text.
#[derive(Debug, Clone, PartialEq, Eq)]
pub struct Id3v2TextFrame {
    pub header: Id3v2FrameHeader,
    pub info: TextInformation,
}

impl View for Id3v2TextFrame {
    type V = FrameView;

    open spec fn view(&self) -> FrameView {
        FrameView::Text {
            header: self.header,
            encoding: self.info.encoding,
            data: self.info.data@,
        }
    }
}

impl Id3v2TextFrame {
    /// Serializes the frame: header, then payload.
    pub fn into_bytes(&self) -> (bytes: Vec<u8>)
        ensures
            bytes@ == self@.spec_bytes(),
    {
        let mut bytes = self.header.into_bytes();
        let payload = self.info.into_bytes();
        append_slice(&mut bytes, payload.as_slice());
        assert(bytes@ =~= self@.spec_bytes());
        bytes
    }
}

/// An attached picture.
#[derive(Debug, Clone, PartialEq, Eq)]
pub struct Picture {
    /// The marker of the description's encoding; `0x03` for UTF-8.
    pub encoding: u8,
    /// The MIME type, without its terminator.
    pub mime: Vec<u8>,
    /// What the picture shows; `0x03` for a front cover.
    pub picture_type: u8,
    /// The description, without its terminator.
    pub description: Vec<u8>,
    /// The image.
    pub data: Vec<u8>,
}

/// The mathematical value of a [`Picture`].
pub struct PictureView {
    pub encoding: u8,
    pub mime: Seq<u8>,
    pub picture_type: u8,
    pub description: Seq<u8>,
    pub data: Seq<u8>,
}

impl PictureView {
    /// The payload bytes: encoding byte, MIME type and its terminator,
    /// picture type, description and its terminator, image data.
    pub open spec fn spec_bytes(self) -> Seq<u8> {
        seq![self.encoding] + self.mime + seq![0u8, self.picture_type] + self.description
            + seq![0u8] + self.data
    }

    /// Whether neither terminated field holds a zero byte, so that the
    /// payload splits again into the same fields.
    pub open spec fn is_terminated(self) -> bool {
        &&& !self.mime.contains(0u8)
        &&& !self.description.contains(0u8)
    }
}

impl View for Picture {
    type V = PictureView;

    open spec fn view(&self) -> PictureView {
        PictureView {
            encoding: self.encoding,
            mime: self.mime@,
            picture_type: self.picture_type,
            description: self.description@,
            data: self.data@,
        }
    }
}

impl Picture {
    /// Serializes the picture payload.
    pub fn into_bytes(&self) -> (bytes: Vec<u8>)
        ensures
            bytes@ == self@.spec_bytes(),
    {
        let mut bytes: Vec<u8> = Vec::new();
        bytes.push(self.encoding);
        append_slice(&mut bytes, self.mime.as_slice());
        bytes.push(0);
        bytes.push(self.picture_type);
        append_slice(&mut bytes, self.description.as_slice());
        bytes.push(0);
        append_slice(&mut bytes, self.data.as_slice());
        assert(bytes@ =~= self@.spec_bytes());
        bytes
    }

    /// The length of the serialized payload.
    pub fn size(&self) -> (size: usize)
        ensures
            size == self@.spec_bytes().len(),
    {
        self.into_bytes().len()
    }

    /// The length of the serialized payload, if a synchsafe field can hold
    /// it.
    pub(crate) fn bounded_size(&self) -> (size: Option<u32>)
        ensures
            match size {
                Some(n) => n == self@.spec_bytes().len() && n <= SYNCHSAFE_MAX,
                None => self@.spec_bytes().len() > SYNCHSAFE_MAX,
            },
    {
        let limit: usize = SYNCHSAFE_MAX as usize;
        if self.mime.len() > limit || self.description.len() > limit || self.data.len() > limit {
            return None;
        }
        let total: u64 = 4 + self.mime.len() as u64 + self.description.len() as u64
            + self.data.len() as u64;
        if total > SYNCHSAFE_MAX as u64 {
            None
        } else {
            Some(total as u32)
        }
    }
}

/// A frame that carries an attached picture.
#[derive(Debug, Clone, PartialEq, Eq)]
pub struct Id3v2PictureFrame {
    pub header: Id3v2FrameHeader,
    pub picture: Picture,
}

impl View for Id3v2PictureFrame {
    type V = FrameView;

    open spec fn view(&self) -> FrameView {
        FrameView::Picture { header: self.header, picture: self.picture@ }
    }
}

impl Id3v2PictureFrame {
    /// Serializes the frame: header, then payload.
    pub fn into_bytes(&self) -> (bytes: Vec<u8>)
        ensures
            bytes@ == self@.spec_bytes(),
    {
        let mut bytes = self.header.into_bytes();
        let payload = self.picture.into_bytes();
        append_slice(&mut bytes, payload.as_slice());
        assert(bytes@ =~= self@.spec_bytes());
        bytes
    }
}

/// One frame of a tag.
#[derive(Debug, Clone, PartialEq, Eq)]
pub enum Frame {
    Text(Id3v2TextFrame),
    Picture(Id3v2PictureFrame),
}

/// The mathematical value of a [`Frame`].
pub enum FrameView {
    Text { header: Id3v2FrameHeader, encoding: u8, data: Seq<u8> },
    Picture { header: Id3v2FrameHeader, picture: PictureView },
}

impl FrameView {
    /// The frame's header.
    pub open spec fn header(self) -> Id3v2FrameHeader {
        match self {
            FrameView::Text { header, .. } => header,
            FrameView::Picture { header, .. } => header,
        }
    }

    /// The bytes that follow the frame's header.
    pub open spec fn payload(self) -> Seq<u8> {
        match self {
            FrameView::Text { encoding, data, .. } => seq![encoding] + data,
            FrameView::Picture { picture, .. } => picture.spec_bytes(),
        }
    }

    /// The serialized frame: header, then payload.
    pub open spec fn spec_bytes(self) -> Seq<u8> {
        self.header().spec_bytes() + self.payload()
    }

    /// Whether the header's size field states the length of the payload.
    pub open spec fn wf(self) -> bool {
        self.header().size as int == self.payload().len()
    }
}

impl View for Frame {
    type V = FrameView;

    open spec fn view(&self) -> FrameView {
        match self {
            Frame::Text(x) => x@,
            Frame::Picture(x) => x@,
        }
    }
}

impl Frame {
    /// Serializes the frame.
    pub fn into_bytes(&self) -> (bytes: Vec<u8>)
        ensures
            bytes@ == self@.spec_bytes(),
    {
        match self {
            Frame::Text(x) => x.into_bytes(),
            Frame::Picture(x) => x.into_bytes(),
        }
    }

    /// Whether the header's size field, which fits a synchsafe field,
    /// states the length of the payload.
    pub fn is_well_formed(&self) -> (ok: bool)
        ensures
            ok == (self@.wf() && self@.header().size <= SYNCHSAFE_MAX),
    {
        match self {
            Frame::Text(x) => x.info.data.len() < SYNCHSAFE_MAX as usize && x.header.size
                == x.info.data.len() as u32 + 1,
            Frame::Picture(x) => match x.picture.bounded_size() {
                Some(n) => x.header.size == n,
                None => false,
            },
        }
    }
}

/// The values of a sequence of frames.
pub open spec fn frames_view(frames: Seq<Frame>) -> Seq<FrameView> {
    frames.map_values(|f: Frame| f@)
}

/// The serialized frames, one after the other.
pub open spec fn frames_bytes(frames: Seq<FrameView>) -> Seq<u8>
    decreases frames.len(),
{
    if frames.len() == 0 {
        Seq::<u8>::empty()
    } else {
        frames_bytes(frames.drop_last()) + frames.last().spec_bytes()
    }
}

/// Serializing a sequence with one more frame appends that frame's bytes.
pub proof fn lemma_frames_bytes_push(frames: Seq<FrameView>, frame: FrameView)
    ensures
        frames_bytes(frames.push(frame)) == frames_bytes(frames) + frame.spec_bytes(),
{
    assert(frames.push(frame).drop_last() =~= frames);
}

/// A single frame serializes to its own bytes.
pub proof fn lemma_frames_bytes_single(frame: FrameView)
    ensures
        frames_bytes(seq![frame]) == frame.spec_bytes(),
{
    lemma_frames_bytes_push(Seq::<FrameView>::empty(), frame);
    assert(Seq::<FrameView>::empty().push(frame) =~= seq![frame]);
    assert(frames_bytes(Seq::<FrameView>::empty()) + frame.spec_bytes() =~= frame.spec_bytes());
}

/// Serializing two sequences of frames in a row concatenates their bytes.
pub proof fn lemma_frames_bytes_concat(a: Seq<FrameView>, b: Seq<FrameView>)
    ensures
        frames_bytes(a + b) == frames_bytes(a) + frames_bytes(b),
    decreases b.len(),
{
    if b.len() == 0 {
        assert(a + b =~= a);
        assert(frames_bytes(a) + frames_bytes(b) =~= frames_bytes(a));
    } else {
        lemma_frames_bytes_concat(a, b.drop_last());
        assert((a + b).drop_last() =~= a + b.drop_last());
        assert(frames_bytes(a) + (frames_bytes(b.drop_last()) + b.last().spec_bytes())
            =~= (frames_bytes(a) + frames_bytes(b.drop_last())) + b.last().spec_bytes());
    }
}

/// Every frame's bytes are its ten header bytes and its payload.
pub proof fn lemma_frame_len(frame: FrameView)
    ensures
        frame.spec_bytes().len() == 10 + frame.payload().len(),
        frame.payload().len() >= 1,
{
}

/// A prefix of the frames serializes to no more bytes than all of them.
pub proof fn lemma_frames_bytes_prefix(frames: Seq<FrameView>, n: int)
    requires
        0 <= n <= frames.len(),
    ensures
        frames_bytes(frames.subrange(0, n)).len() <= frames_bytes(frames).len(),
{
    lemma_frames_bytes_concat(frames.subrange(0, n), frames.subrange(n, frames.len() as int));
    assert(frames.subrange(0, n) + frames.subrange(n, frames.len() as int) =~= frames);
}

/// Replacing one frame changes the serialized length by the difference of
/// the two frames' lengths.
pub proof fn lemma_frames_bytes_update(frames: Seq<FrameView>, i: int, frame: FrameView)
    requires
        0 <= i < frames.len(),
    ensures
        frames_bytes(frames.update(i, frame)).len() == frames_bytes(frames).len()
            - frames[i].spec_bytes().len() + frame.spec_bytes().len(),
        frames_bytes(frames).len() >= frames[i].spec_bytes().len(),
{
    let a = frames.subrange(0, i);
    let b = frames.subrange(i + 1, frames.len() as int);
    assert(a.push(frames[i]) + b =~= frames);
    assert(a.push(frame) + b =~= frames.update(i, frame));
    lemma_frames_bytes_concat(a.push(frames[i]), b);
    lemma_frames_bytes_concat(a.push(frame), b);
    lemma_frames_bytes_push(a, frames[i]);
    lemma_frames_bytes_push(a, frame);
}

/// A decoded tag.
#[derive(Debug, Clone, PartialEq, Eq)]
pub struct Id3v2Tag {
    pub header: Id3v2Header,
    pub extended_header: Option<Id3v2ExtendedHeader>,
    /// The frames in the order in which they were met or appended.
    pub frames: Vec<Frame>,
    pub footer: Option<Id3v2Header>,
}

/// The mathematical value of an [`Id3v2Tag`].
pub struct TagView {
    pub header: Id3v2Header,
    pub extended_header: Option<Id3v2ExtendedHeader>,
    pub frames: Seq<FrameView>,
    pub footer: Option<Id3v2Header>,
}

impl View for Id3v2Tag {
    type V = TagView;

    open spec fn view(&self) -> TagView {
        TagView {
            header: self.header,
            extended_header: self.extended_header,
            frames: frames_view(self.frames@),
            footer: self.footer,
        }
    }
}

impl TagView {
    /// The serialized extended header, empty where the tag has none.
    pub open spec fn extended_header_bytes(self) -> Seq<u8> {
        match self.extended_header {
            Some(e) => e.spec_bytes(),
            None => Seq::<u8>::empty(),
        }
    }

    /// The serialized footer, empty where the tag has none.
    pub open spec fn footer_bytes(self) -> Seq<u8> {
        match self.footer {
            Some(f) => f.spec_bytes(),
            None => Seq::<u8>::empty(),
        }
    }

    /// What lies between header and footer: extended header, then frames.
    pub open spec fn body_bytes(self) -> Seq<u8> {
        self.extended_header_bytes() + frames_bytes(self.frames)
    }

    /// The serialized tag. The header's size field is written from the
    /// length of the body, not from the size that the header holds.
    pub open spec fn spec_bytes(self) -> Seq<u8> {
        (Id3v2Header {
            identifier: self.header.identifier,
            version: self.header.version,
            flags: self.header.flags,
            size: self.body_bytes().len() as u32,
        }).spec_bytes() + self.body_bytes() + self.footer_bytes()
    }

    /// The tag with the length of its body as the size in its header.
    pub open spec fn with_exact_size(self) -> TagView {
        TagView {
            header: Id3v2Header {
                identifier: self.header.identifier,
                version: self.header.version,
                flags: self.header.flags,
                size: self.body_bytes().len() as u32,
            },
            extended_header: self.extended_header,
            frames: self.frames,
            footer: self.footer,
        }
    }

    /// Whether every size field is exact: each frame's states the length of
    /// its payload, and the header's the length of the body, which a
    /// synchsafe field can hold.
    pub open spec fn wf(self) -> bool {
        &&& forall|i: int| 0 <= i < self.frames.len() ==> (#[trigger] self.frames[i]).wf()
        &&& self.header.size as int == self.body_bytes().len()
        &&& self.header.size <= SYNCHSAFE_MAX
    }

    /// The length of the serialized tag: header, body, footer.
    pub proof fn lemma_spec_bytes_len(self)
        ensures
            self.spec_bytes().len() == 10 + self.body_bytes().len() + self.footer_bytes().len(),
            self.footer_bytes().len() == (if self.footer is Some {
                10int
            } else {
                0int
            }),
            self.extended_header_bytes().len() == (match self.extended_header {
                Some(e) => e.spec_len(),
                None => 0int,
            }),
    {
    }

    /// The size field of the serialized tag states the length of what lies
    /// between header and footer, whatever size the header held.
    pub proof fn lemma_size_field_exact(self)
        requires
            self.body_bytes().len() <= SYNCHSAFE_MAX,
        ensures
            ({
                let b = self.spec_bytes();
                synchsafe_u32(b[6], b[7], b[8], b[9]) as int == b.len() - 10 - (if self.footer
                    is Some {
                    10int
                } else {
                    0int
                })
            }),
            self.wf() ==> self.spec_bytes() == self.header.spec_bytes() + self.body_bytes()
                + self.footer_bytes(),
    {
        let size = self.body_bytes().len() as u32;
        lemma_synchsafe_u32_roundtrip(size);
        self.lemma_spec_bytes_len();
        let b = self.spec_bytes();
        let e = u32_synchsafe(size);
        assert(b[6] == e[0] && b[7] == e[1] && b[8] == e[2] && b[9] == e[3]);
    }
}

impl Id3v2Tag {
    /// Whether every size field of the tag is exact.
    pub open spec fn wf(&self) -> bool {
        self@.wf()
    }

    /// Whether every size field of the tag is exact.
    pub fn is_well_formed(&self) -> (ok: bool)
        ensures
            ok == self.wf(),
    {
        let mut total: u64 = 0;
        match &self.extended_header {
            Some(e) => {
                total += 9;
                if e.total_frame_crc.is_some() {
                    total += 5;
                }
                if e.restrictions.is_some() {
                    total += 1;
                }
            },
            None => {},
        }
        let ghost frames = self@.frames;
        let ghost ext_len = self@.extended_header_bytes().len();
        let mut i: usize = 0;
        assert(frames.subrange(0, 0) =~= Seq::<FrameView>::empty());
        while i < self.frames.len()
            invariant
                i <= self.frames@.len(),
                frames == self@.frames,
                frames.len() == self.frames@.len(),
                forall|j: int| 0 <= j < i ==> (#[trigger] frames[j]).wf(),
                self@.body_bytes().len() == ext_len + frames_bytes(frames).len(),
                total == ext_len + frames_bytes(frames.subrange(0, i as int)).len(),
                total <= SYNCHSAFE_MAX,
            decreases self.frames@.len() - i,
        {
            let ghost f = frames[i as int];
            proof {
                assert(f == self.frames@[i as int]@);
                lemma_frame_len(f);
                lemma_frames_bytes_push(frames.subrange(0, i as int), f);
                assert(frames.subrange(0, i as int).push(f) =~= frames.subrange(0, i + 1));
                lemma_frames_bytes_prefix(frames, i + 1);
            }
            if !self.frames[i].is_well_formed() {
                proof {
                    if f.wf() {
                        lemma_frames_bytes_update(frames, i as int, f);
                    }
                }
                return false;
            }
            let frame_size: u32 = match &self.frames[i] {
                Frame::Picture(x) => x.header.size,
                Frame::Text(x) => x.header.size,
            };
            total += frame_size as u64 + 10;
            if total > SYNCHSAFE_MAX as u64 {
                return false;
            }
            i += 1;
        }
        assert(frames.subrange(0, i as int) =~= frames);
        self.header.size as u64 == total
    }

    /// The length of what lies between header and footer.
    pub(crate) fn body_len(&self) -> (len: u32)
        requires
            forall|i: int| 0 <= i < self@.frames.len() ==> (#[trigger] self@.frames[i]).wf(),
            self@.body_bytes().len() <= SYNCHSAFE_MAX,
        ensures
            len == self@.body_bytes().len(),
    {
        let mut total: u64 = 0;
        match &self.extended_header {
            Some(e) => {
                total += 9;
                if e.total_frame_crc.is_some() {
                    total += 5;
                }
                if e.restrictions.is_some() {
                    total += 1;
                }
            },
            None => {},
        }
        let ghost frames = self@.frames;
        let ghost ext_len = self@.extended_header_bytes().len();
        let mut i: usize = 0;
        assert(frames.subrange(0, 0) =~= Seq::<FrameView>::empty());
        while i < self.frames.len()
            invariant
                i <= self.frames@.len(),
                frames == self@.frames,
                frames.len() == self.frames@.len(),
                forall|i: int| 0 <= i < frames.len() ==> (#[trigger] frames[i]).wf(),
                self@.body_bytes().len() <= SYNCHSAFE_MAX,
                self@.body_bytes().len() == ext_len + frames_bytes(frames).len(),
                total == ext_len + frames_bytes(frames.subrange(0, i as int)).len(),
            decreases self.frames@.len() - i,
        {
            proof {
                let f = frames[i as int];
                assert(f == self.frames@[i as int]@);
                assert(f.wf());
                lemma_frame_len(f);
                lemma_frames_bytes_push(frames.subrange(0, i as int), f);
                assert(frames.subrange(0, i as int).push(f) =~= frames.subrange(0, i + 1));
                lemma_frames_bytes_prefix(frames, i + 1);
            }
            let frame_size: u32 = match &self.frames[i] {
                Frame::Picture(x) => x.header.size,
                Frame::Text(x) => x.header.size,
            };
            total += frame_size as u64 + 10;
            i += 1;
        }
        assert(frames.subrange(0, i as int) =~= frames);
        total as u32
    }

    /// The number of bytes that the serialized tag takes.
    pub fn get_size(self) -> (size: u64)
        requires
            self.wf(),
        ensures
            size == self@.spec_bytes().len(),
    {
        proof {
            self@.lemma_spec_bytes_len();
        }
        let mut total: u64 = 10 + self.body_len() as u64;
        if self.footer.is_some() {
            total += 10;
        }
        total
    }

    /// Serializes the tag: header, extended header, frames in order, footer.
    /// The header's size field is written from the length of what was
    /// emitted after the header and before the footer.
    pub fn into_bytes(&self) -> (bytes: Vec<u8>)
        requires
            self@.body_bytes().len() <= SYNCHSAFE_MAX,
        ensures
            bytes@ == self@.spec_bytes(),
            bytes@.len() >= 10,
            synchsafe_u32(bytes@[6], bytes@[7], bytes@[8], bytes@[9]) as int == bytes@.len() - 10
                - (if self.footer is Some {
                10int
            } else {
                0int
            }),
    {
        let mut body: Vec<u8> = match &self.extended_header {
            Some(e) => e.into_bytes(),
            None => Vec::new(),
        };
        let ghost frames = self@.frames;
        let mut i: usize = 0;
        assert(frames.subrange(0, 0) =~= Seq::<FrameView>::empty());
        assert(body@ =~= self@.extended_header_bytes() + frames_bytes(frames.subrange(0, 0)));
        while i < self.frames.len()
            invariant
                i <= self.frames@.len(),
                frames == self@.frames,
                frames.len() == self.frames@.len(),
                body@ == self@.extended_header_bytes() + frames_bytes(
                    frames.subrange(0, i as int),
                ),
            decreases self.frames@.len() - i,
        {
            let frame_bytes = self.frames[i].into_bytes();
            append_slice(&mut body, frame_bytes.as_slice());
            proof {
                let f = frames[i as int];
                assert(f == self.frames@[i as int]@);
                lemma_frames_bytes_push(frames.subrange(0, i as int), f);
                assert(frames.subrange(0, i as int).push(f) =~= frames.subrange(0, i + 1));
                assert(body@ =~= self@.extended_header_bytes() + frames_bytes(
                    frames.subrange(0, i + 1),
                ));
            }
            i += 1;
        }
        assert(frames.subrange(0, i as int) =~= frames);
        let header = Id3v2Header {
            identifier: self.header.identifier,
            version: self.header.version,
            flags: self.header.flags,
            size: body.len() as u32,
        };
        let mut bytes = header.into_bytes();
        append_slice(&mut bytes, body.as_slice());
        match &self.footer {
            Some(f) => {
                let footer_bytes = f.into_bytes();
                append_slice(&mut bytes, footer_bytes.as_slice());
            },
            None => {},
        }
        proof {
            assert(bytes@ =~= self@.spec_bytes());
            self@.lemma_size_field_exact();
        }
        bytes
    }
}

} // verus!
