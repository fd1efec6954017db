//! Synchsafe integers: seven significant bits per byte, the high bit clear.

use vstd::prelude::*;

verus! {

/// The largest value that four synchsafe bytes can hold: 28 bits.
pub const SYNCHSAFE_MAX: u32 = 0x0FFF_FFFF;

/// The largest value that five synchsafe bytes can hold: 35 bits.
pub const SYNCHSAFE_MAX_64: u64 = 0x7_FFFF_FFFF;

/// The value that four synchsafe bytes stand for, most significant first:
/// seven bits of each byte. Bytes whose high bit is set are not rejected;
/// their eight bits are or-ed in at the same positions.
pub open spec fn synchsafe_u32(b0: u8, b1: u8, b2: u8, b3: u8) -> u32 {
    if b0 < 0x80 && b1 < 0x80 && b2 < 0x80 && b3 < 0x80 {
        (b0 * 0x20_0000 + b1 * 0x4000 + b2 * 0x80 + b3) as u32
    } else {
        (b0 as u32) << 21 | (b1 as u32) << 14 | (b2 as u32) << 7 | (b3 as u32)
    }
}

/// The value that five synchsafe bytes stand for, most significant first:
/// seven bits of each byte. Bytes whose high bit is set are not rejected;
/// their eight bits are or-ed in at the same positions.
pub open spec fn synchsafe_u64(b0: u8, b1: u8, b2: u8, b3: u8, b4: u8) -> u64 {
    if b0 < 0x80 && b1 < 0x80 && b2 < 0x80 && b3 < 0x80 && b4 < 0x80 {
        (b0 * 0x1000_0000 + b1 * 0x20_0000 + b2 * 0x4000 + b3 * 0x80 + b4) as u64
    } else {
        (b0 as u64) << 28 | (b1 as u64) << 21 | (b2 as u64) << 14 | (b3 as u64) << 7 | (b4 as u64)
    }
}

/// The four synchsafe bytes of a value, most significant first. Each byte
/// keeps seven bits; bits 28 and above are dropped.
pub open spec fn u32_synchsafe(value: u32) -> Seq<u8> {
    seq![
        ((value / 0x20_0000) % 0x80) as u8,
        ((value / 0x4000) % 0x80) as u8,
        ((value / 0x80) % 0x80) as u8,
        (value % 0x80) as u8,
    ]
}

/// The five synchsafe bytes of a value, most significant first. Each byte
/// keeps seven bits; bits 35 and above are dropped.
pub open spec fn u64_synchsafe(value: u64) -> Seq<u8> {
    seq![
        ((value / 0x1000_0000) % 0x80) as u8,
        ((value / 0x20_0000) % 0x80) as u8,
        ((value / 0x4000) % 0x80) as u8,
        ((value / 0x80) % 0x80) as u8,
        (value % 0x80) as u8,
    ]
}

/// Whether every byte of `bytes` has its high bit clear.
pub open spec fn is_synchsafe(bytes: Seq<u8>) -> bool {
    forall|i: int| 0 <= i < bytes.len() ==> bytes[i] < 0x80
}

/// Decodes four synchsafe bytes. The high bit of each byte is not checked.
pub fn convert_safesynch_to_u32(byte0: u8, byte1: u8, byte2: u8, byte3: u8) -> (value: u32)
    ensures
        value == synchsafe_u32(byte0, byte1, byte2, byte3),
        value <= 0x1FFF_FFFF,
{
    let value = (byte0 as u32) << 21 | (byte1 as u32) << 14 | (byte2 as u32) << 7 | (byte3 as u32);
    assert(value <= 0x1FFF_FFFF && (byte0 < 0x80 && byte1 < 0x80 && byte2 < 0x80 && byte3 < 0x80
        ==> value == byte0 * 0x20_0000 + byte1 * 0x4000 + byte2 * 0x80 + byte3)) by (bit_vector)
        requires
            value == (byte0 as u32) << 21 | (byte1 as u32) << 14 | (byte2 as u32) << 7 | (
            byte3 as u32),
    ;
    value
}

/// Decodes five synchsafe bytes. The high bit of each byte is not checked.
pub fn convert_safesynch_to_u64(byte0: u8, byte1: u8, byte2: u8, byte3: u8, byte4: u8) -> (value:
    u64)
    ensures
        value == synchsafe_u64(byte0, byte1, byte2, byte3, byte4),
{
    let value = (byte0 as u64) << 28 | (byte1 as u64) << 21 | (byte2 as u64) << 14 | (byte3 as u64)
        << 7 | (byte4 as u64);
    assert(byte0 < 0x80 && byte1 < 0x80 && byte2 < 0x80 && byte3 < 0x80 && byte4 < 0x80 ==> value
        == byte0 * 0x1000_0000 + byte1 * 0x20_0000 + byte2 * 0x4000 + byte3 * 0x80 + byte4) by (
    bit_vector)
        requires
            value == (byte0 as u64) << 28 | (byte1 as u64) << 21 | (byte2 as u64) << 14 | (
            byte3 as u64) << 7 | (byte4 as u64),
    ;
    value
}

/// Encodes a value as four synchsafe bytes.
pub fn convert_u32_to_safesynch(value: u32) -> (bytes: [u8; 4])
    ensures
        bytes@ == u32_synchsafe(value),
{
    assert((value >> 21) & 0x7f == (value / 0x20_0000) % 0x80 && (value >> 14) & 0x7f == (value
        / 0x4000) % 0x80 && (value >> 7) & 0x7f == (value / 0x80) % 0x80 && value & 0x7f == value
        % 0x80) by (bit_vector);
    let byte0: u8 = ((value >> 21) & 0x7f) as u8;
    let byte1: u8 = ((value >> 14) & 0x7f) as u8;
    let byte2: u8 = ((value >> 7) & 0x7f) as u8;
    let byte3: u8 = (value & 0x7f) as u8;
    let bytes = [byte0, byte1, byte2, byte3];
    assert(bytes@ =~= u32_synchsafe(value));
    bytes
}

/// Encodes a value as five synchsafe bytes.
pub fn convert_u64_to_safesynch(value: u64) -> (bytes: [u8; 5])
    ensures
        bytes@ == u64_synchsafe(value),
{
    assert((value >> 28) & 0x7f == (value / 0x1000_0000) % 0x80 && (value >> 21) & 0x7f == (value
        / 0x20_0000) % 0x80 && (value >> 14) & 0x7f == (value / 0x4000) % 0x80 && (value >> 7)
        & 0x7f == (value / 0x80) % 0x80 && value & 0x7f == value % 0x80) by (bit_vector);
    let byte0: u8 = ((value >> 28) & 0x7f) as u8;
    let byte1: u8 = ((value >> 21) & 0x7f) as u8;
    let byte2: u8 = ((value >> 14) & 0x7f) as u8;
    let byte3: u8 = ((value >> 7) & 0x7f) as u8;
    let byte4: u8 = (value & 0x7f) as u8;
    let bytes = [byte0, byte1, byte2, byte3, byte4];
    assert(bytes@ =~= u64_synchsafe(value));
    bytes
}

/// The value of four bytes read as a synchsafe integer has at most 29
/// bits, and at most 28 if the bytes are synchsafe.
pub proof fn lemma_synchsafe_u32_bound(b0: u8, b1: u8, b2: u8, b3: u8)
    ensures
        synchsafe_u32(b0, b1, b2, b3) <= 0x1FFF_FFFF,
        b0 < 0x80 && b1 < 0x80 && b2 < 0x80 && b3 < 0x80 ==> synchsafe_u32(b0, b1, b2, b3)
            <= SYNCHSAFE_MAX,
{
    assert(((b0 as u32) << 21 | (b1 as u32) << 14 | (b2 as u32) << 7 | (b3 as u32))
        <= 0x1FFF_FFFFu32) by (bit_vector);
}

/// Encoding yields four synchsafe bytes, whatever the value.
pub proof fn lemma_u32_synchsafe_bytes(value: u32)
    ensures
        u32_synchsafe(value).len() == 4,
        is_synchsafe(u32_synchsafe(value)),
{
}

/// Decoding inverts encoding on every value of at most 28 bits.
pub proof fn lemma_synchsafe_u32_roundtrip(value: u32)
    requires
        value <= SYNCHSAFE_MAX,
    ensures
        ({
            let b = u32_synchsafe(value);
            synchsafe_u32(b[0], b[1], b[2], b[3]) == value
        }),
{
    assert(((value / 0x20_0000) % 0x80) * 0x20_0000 + ((value / 0x4000) % 0x80) * 0x4000 + ((value
        / 0x80) % 0x80) * 0x80 + value % 0x80 == value) by (bit_vector)
        requires
            value <= 0x0FFF_FFFFu32,
    ;
}

/// Encoding inverts decoding on synchsafe bytes.
pub proof fn lemma_u32_synchsafe_roundtrip(b0: u8, b1: u8, b2: u8, b3: u8)
    requires
        b0 < 0x80,
        b1 < 0x80,
        b2 < 0x80,
        b3 < 0x80,
    ensures
        u32_synchsafe(synchsafe_u32(b0, b1, b2, b3)) == seq![b0, b1, b2, b3],
{
    let v = synchsafe_u32(b0, b1, b2, b3);
    assert((v / 0x20_0000) % 0x80 == b0 && (v / 0x4000) % 0x80 == b1 && (v / 0x80) % 0x80 == b2
        && v % 0x80 == b3) by (bit_vector)
        requires
            v == (b0 as u32) * 0x20_0000 + (b1 as u32) * 0x4000 + (b2 as u32) * 0x80 + (b3 as u32),
            b0 < 0x80,
            b1 < 0x80,
            b2 < 0x80,
            b3 < 0x80,
    ;
    assert(u32_synchsafe(v) =~= seq![b0, b1, b2, b3]);
}

/// Decoding inverts encoding on every value of at most 35 bits.
pub proof fn lemma_synchsafe_u64_roundtrip(value: u64)
    requires
        value <= SYNCHSAFE_MAX_64,
    ensures
        ({
            let b = u64_synchsafe(value);
            synchsafe_u64(b[0], b[1], b[2], b[3], b[4]) == value
        }),
{
    assert(((value / 0x1000_0000) % 0x80) * 0x1000_0000 + ((value / 0x20_0000) % 0x80) * 0x20_0000
        + ((value / 0x4000) % 0x80) * 0x4000 + ((value / 0x80) % 0x80) * 0x80 + value % 0x80
        == value) by (bit_vector)
        requires
            value <= 0x7_FFFF_FFFFu64,
    ;
}

/// The name of the field that a frame identifier stands for, as the
/// ID3v2.4 frame list gives it; `Unknown frame` for any other identifier.
pub open spec fn field_name(identifier: [u8; 4]) -> Seq<char> {
    match (
        identifier[0] as char,
        identifier[1] as char,
        identifier[2] as char,
        identifier[3] as char,
    ) {
        ('A', 'E', 'N', 'C') => "Audio encryption"@,
        ('A', 'P', 'I', 'C') => "Attached picture"@,
        ('A', 'S', 'P', 'I') => "Audio seek point index"@,
        ('C', 'O', 'M', 'M') => "Comments"@,
        ('C', 'O', 'M', 'R') => "Commercial frame"@,
        ('E', 'N', 'C', 'R') => "Encryption method registration"@,
        ('E', 'Q', 'U', '2') => "Equalisation (2)"@,
        ('E', 'T', 'C', 'O') => "Event timing codes"@,
        ('G', 'E', 'O', 'B') => "General encapsulated object"@,
        ('G', 'R', 'I', 'D') => "Group identification registration"@,
        ('L', 'I', 'N', 'K') => "Linked information"@,
        ('M', 'C', 'D', 'I') => "Music CD identifier"@,
        ('M', 'L', 'L', 'T') => "MPEG location lookup table"@,
        ('O', 'W', 'N', 'E') => "Ownership frame"@,
        ('P', 'R', 'I', 'V') => "Private frame"@,
        ('P', 'C', 'N', 'T') => "Play counter"@,
        ('P', 'O', 'P', 'M') => "Popularimeter"@,
        ('P', 'O', 'S', 'S') => "Position synchronisation frame"@,
        ('R', 'B', 'U', 'F') => "Recommended buffer size"@,
        ('R', 'V', 'A', '2') => "Relative volume adjustment (2)"@,
        ('R', 'V', 'R', 'B') => "Reverb"@,
        ('S', 'E', 'E', 'K') => "Seek frame"@,
        ('S', 'I', 'G', 'N') => "Signature frame"@,
        ('S', 'Y', 'L', 'T') => "Synchronised lyric/text"@,
        ('S', 'Y', 'T', 'C') => "Synchronised tempo codes"@,
        ('T', 'A', 'L', 'B') => "Album/Movie/Show title"@,
        ('T', 'B', 'P', 'M') => "BPM (beats per minute)"@,
        ('T', 'C', 'O', 'M') => "Composer"@,
        ('T', 'C', 'O', 'N') => "Content type"@,
        ('T', 'C', 'O', 'P') => "Copyright message"@,
        ('T', 'D', 'E', 'N') => "Encoding time"@,
        ('T', 'D', 'L', 'Y') => "Playlist delay"@,
        ('T', 'D', 'O', 'R') => "Original release time"@,
        ('T', 'D', 'R', 'C') => "Recording time"@,
        ('T', 'D', 'R', 'L') => "Release time"@,
        ('T', 'D', 'T', 'G') => "Tagging time"@,
        ('T', 'E', 'N', 'C') => "Encoded by"@,
        ('T', 'E', 'X', 'T') => "Lyricist/Text writer"@,
        ('T', 'F', 'L', 'T') => "File type"@,
        ('T', 'I', 'P', 'L') => "Involved people list"@,
        ('T', 'I', 'T', '1') => "Content group description"@,
        ('T', 'I', 'T', '2') => "Title/songname/content description"@,
        ('T', 'I', 'T', '3') => "Subtitle/Description refinement"@,
        ('T', 'K', 'E', 'Y') => "Initial key"@,
        ('T', 'L', 'A', 'N') => "Language(s)"@,
        ('T', 'L', 'E', 'N') => "Length"@,
        ('T', 'M', 'C', 'L') => "Musician credits list"@,
        ('T', 'M', 'E', 'D') => "Media type"@,
        ('T', 'M', 'O', 'O') => "Mood"@,
        ('T', 'O', 'A', 'L') => "Original album/movie/show title"@,
        ('T', 'O', 'F', 'N') => "Original filename"@,
        ('T', 'O', 'L', 'Y') => "Original lyricist(s)/text writer(s)"@,
        ('T', 'O', 'P', 'E') => "Original artist(s)/performer(s)"@,
        ('T', 'O', 'W', 'N') => "File owner/licensee"@,
        ('T', 'P', 'E', '1') => "Lead performer(s)/Soloist(s)"@,
        ('T', 'P', 'E', '2') => "Band/orchestra/accompaniment"@,
        ('T', 'P', 'E', '3') => "Conductor/performer refinement"@,
        ('T', 'P', 'E', '4') => "Interpreted, remixed, or otherwise modified by"@,
        ('T', 'P', 'O', 'S') => "Part of a set"@,
        ('T', 'P', 'R', 'O') => "Produced notice"@,
        ('T', 'P', 'U', 'B') => "Publisher"@,
        ('T', 'R', 'C', 'K') => "Track number/Position in set"@,
        ('T', 'R', 'S', 'N') => "Internet radio station name"@,
        ('T', 'R', 'S', 'O') => "Internet radio station owner"@,
        ('T', 'S', 'O', 'A') => "Album sort order"@,
        ('T', 'S', 'O', 'P') => "Performer sort order"@,
        ('T', 'S', 'O', 'T') => "Title sort order"@,
        ('T', 'S', 'R', 'C') => "ISRC (international standard recording code)"@,
        ('T', 'S', 'S', 'E') => "Software/Hardware and settings used for encoding"@,
        ('T', 'S', 'S', 'T') => "Set subtitle"@,
        ('U', 'F', 'I', 'D') => "Unique file identifier"@,
        ('U', 'S', 'E', 'R') => "Terms of use"@,
        ('U', 'S', 'L', 'T') => "Unsynchronised lyric/text transcription"@,
        ('W', 'C', 'O', 'M') => "Commercial information"@,
        ('W', 'C', 'O', 'P') => "Copyright/Legal information"@,
        ('W', 'O', 'A', 'F') => "Official audio file webpage"@,
        ('W', 'O', 'A', 'R') => "Official artist/performer webpage"@,
        ('W', 'O', 'A', 'S') => "Official audio source webpage"@,
        ('W', 'O', 'R', 'S') => "Official Internet radio station homepage"@,
        ('W', 'P', 'A', 'Y') => "Payment"@,
        ('W', 'P', 'U', 'B') => "Publishers official webpage"@,
        _ => "Unknown frame"@,
    }
}

/// Names the field that a frame identifier stands for.
pub fn get_field_name(identifier: [u8; 4]) -> (name: String)
    ensures
        name@ == field_name(identifier),
{
    match (
        identifier[0] as char,
        identifier[1] as char,
        identifier[2] as char,
        identifier[3] as char,
    ) {
        ('A', 'E', 'N', 'C') => "Audio encryption".to_string(),
        ('A', 'P', 'I', 'C') => "Attached picture".to_string(),
        ('A', 'S', 'P', 'I') => "Audio seek point index".to_string(),
        ('C', 'O', 'M', 'M') => "Comments".to_string(),
        ('C', 'O', 'M', 'R') => "Commercial frame".to_string(),
        ('E', 'N', 'C', 'R') => "Encryption method registration".to_string(),
        ('E', 'Q', 'U', '2') => "Equalisation (2)".to_string(),
        ('E', 'T', 'C', 'O') => "Event timing codes".to_string(),
        ('G', 'E', 'O', 'B') => "General encapsulated object".to_string(),
        ('G', 'R', 'I', 'D') => "Group identification registration".to_string(),
        ('L', 'I', 'N', 'K') => "Linked information".to_string(),
        ('M', 'C', 'D', 'I') => "Music CD identifier".to_string(),
        ('M', 'L', 'L', 'T') => "MPEG location lookup table".to_string(),
        ('O', 'W', 'N', 'E') => "Ownership frame".to_string(),
        ('P', 'R', 'I', 'V') => "Private frame".to_string(),
        ('P', 'C', 'N', 'T') => "Play counter".to_string(),
        ('P', 'O', 'P', 'M') => "Popularimeter".to_string(),
        ('P', 'O', 'S', 'S') => "Position synchronisation frame".to_string(),
        ('R', 'B', 'U', 'F') => "Recommended buffer size".to_string(),
        ('R', 'V', 'A', '2') => "Relative volume adjustment (2)".to_string(),
        ('R', 'V', 'R', 'B') => "Reverb".to_string(),
        ('S', 'E', 'E', 'K') => "Seek frame".to_string(),
        ('S', 'I', 'G', 'N') => "Signature frame".to_string(),
        ('S', 'Y', 'L', 'T') => "Synchronised lyric/text".to_string(),
        ('S', 'Y', 'T', 'C') => "Synchronised tempo codes".to_string(),
        ('T', 'A', 'L', 'B') => "Album/Movie/Show title".to_string(),
        ('T', 'B', 'P', 'M') => "BPM (beats per minute)".to_string(),
        ('T', 'C', 'O', 'M') => "Composer".to_string(),
        ('T', 'C', 'O', 'N') => "Content type".to_string(),
        ('T', 'C', 'O', 'P') => "Copyright message".to_string(),
        ('T', 'D', 'E', 'N') => "Encoding time".to_string(),
        ('T', 'D', 'L', 'Y') => "Playlist delay".to_string(),
        ('T', 'D', 'O', 'R') => "Original release time".to_string(),
        ('T', 'D', 'R', 'C') => "Recording time".to_string(),
        ('T', 'D', 'R', 'L') => "Release time".to_string(),
        ('T', 'D', 'T', 'G') => "Tagging time".to_string(),
        ('T', 'E', 'N', 'C') => "Encoded by".to_string(),
        ('T', 'E', 'X', 'T') => "Lyricist/Text writer".to_string(),
        ('T', 'F', 'L', 'T') => "File type".to_string(),
        ('T', 'I', 'P', 'L') => "Involved people list".to_string(),
        ('T', 'I', 'T', '1') => "Content group description".to_string(),
        ('T', 'I', 'T', '2') => "Title/songname/content description".to_string(),
        ('T', 'I', 'T', '3') => "Subtitle/Description refinement".to_string(),
        ('T', 'K', 'E', 'Y') => "Initial key".to_string(),
        ('T', 'L', 'A', 'N') => "Language(s)".to_string(),
        ('T', 'L', 'E', 'N') => "Length".to_string(),
        ('T', 'M', 'C', 'L') => "Musician credits list".to_string(),
        ('T', 'M', 'E', 'D') => "Media type".to_string(),
        ('T', 'M', 'O', 'O') => "Mood".to_string(),
        ('T', 'O', 'A', 'L') => "Original album/movie/show title".to_string(),
        ('T', 'O', 'F', 'N') => "Original filename".to_string(),
        ('T', 'O', 'L', 'Y') => "Original lyricist(s)/text writer(s)".to_string(),
        ('T', 'O', 'P', 'E') => "Original artist(s)/performer(s)".to_string(),
        ('T', 'O', 'W', 'N') => "File owner/licensee".to_string(),
        ('T', 'P', 'E', '1') => "Lead performer(s)/Soloist(s)".to_string(),
        ('T', 'P', 'E', '2') => "Band/orchestra/accompaniment".to_string(),
        ('T', 'P', 'E', '3') => "Conductor/performer refinement".to_string(),
        ('T', 'P', 'E', '4') => "Interpreted, remixed, or otherwise modified by".to_string(),
        ('T', 'P', 'O', 'S') => "Part of a set".to_string(),
        ('T', 'P', 'R', 'O') => "Produced notice".to_string(),
        ('T', 'P', 'U', 'B') => "Publisher".to_string(),
        ('T', 'R', 'C', 'K') => "Track number/Position in set".to_string(),
        ('T', 'R', 'S', 'N') => "Internet radio station name".to_string(),
        ('T', 'R', 'S', 'O') => "Internet radio station owner".to_string(),
        ('T', 'S', 'O', 'A') => "Album sort order".to_string(),
        ('T', 'S', 'O', 'P') => "Performer sort order".to_string(),
        ('T', 'S', 'O', 'T') => "Title sort order".to_string(),
        ('T', 'S', 'R', 'C') => "ISRC (international standard recording code)".to_string(),
        ('T', 'S', 'S', 'E') => "Software/Hardware and settings used for encoding".to_string(),
        ('T', 'S', 'S', 'T') => "Set subtitle".to_string(),
        ('U', 'F', 'I', 'D') => "Unique file identifier".to_string(),
        ('U', 'S', 'E', 'R') => "Terms of use".to_string(),
        ('U', 'S', 'L', 'T') => "Unsynchronised lyric/text transcription".to_string(),
        ('W', 'C', 'O', 'M') => "Commercial information".to_string(),
        ('W', 'C', 'O', 'P') => "Copyright/Legal information".to_string(),
        ('W', 'O', 'A', 'F') => "Official audio file webpage".to_string(),
        ('W', 'O', 'A', 'R') => "Official artist/performer webpage".to_string(),
        ('W', 'O', 'A', 'S') => "Official audio source webpage".to_string(),
        ('W', 'O', 'R', 'S') => "Official Internet radio station homepage".to_string(),
        ('W', 'P', 'A', 'Y') => "Payment".to_string(),
        ('W', 'P', 'U', 'B') => "Publishers official webpage".to_string(),
        _ => "Unknown frame".to_string(),
    }
}

} // verus!
