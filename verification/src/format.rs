//! The decayfmt format definition: the binary header and the filename convention.
//!
//! The fixed 16-byte header holds the magic, the version, the file type and a
//! per-type metadata region. The filename convention carries the payload type and
//! the instability value x (`name.idcy<x>`, `name.tdcy<x>`, `name.adcy<x>`). A buffer
//! is only accepted as a header, and a name only accepted as a decayfmt name, if they
//! match this build exactly; anything else is a typed refusal.

use crate::error::DecayError;
use vstd::prelude::*;

verus! {

/// The four magic bytes that identify a decayfmt file: ASCII "DCYF".
pub const MAGIC: [u8; 4] = [0x44, 0x43, 0x59, 0x46];

/// The format version this build reads and writes. An unknown version is refused,
/// never interpreted.
pub const VERSION: u8 = 0x02;

/// file_type byte for an image payload (raw RGBA pixels).
pub const FILE_TYPE_IMAGE: u8 = 0x01;

/// file_type byte for a text payload (raw UTF-8 bytes).
pub const FILE_TYPE_TEXT: u8 = 0x02;

/// file_type byte for an audio payload (raw interleaved PCM samples).
pub const FILE_TYPE_AUDIO: u8 = 0x03;

/// Filename extension prefix that precedes x for an image, for example `idcy3`.
pub const IMAGE_EXTENSION_PREFIX: &'static str = "idcy";

/// Filename extension prefix that precedes x for text, for example `tdcy7`.
pub const TEXT_EXTENSION_PREFIX: &'static str = "tdcy";

/// Filename extension prefix that precedes x for audio, for example `adcy5`.
pub const AUDIO_EXTENSION_PREFIX: &'static str = "adcy";

/// Bits per sample of an audio payload: every audio payload is signed 16-bit
/// little-endian PCM.
pub const AUDIO_BITS_PER_SAMPLE: u8 = 16;

/// Bytes per audio sample, derived from [`AUDIO_BITS_PER_SAMPLE`].
pub const AUDIO_BYTES_PER_SAMPLE: usize = 2;

/// Byte offset of the 4-byte little-endian image width within the header.
pub const WIDTH_OFFSET: usize = 6;

/// Byte offset of the 4-byte little-endian image height within the header.
pub const HEIGHT_OFFSET: usize = 10;

/// Byte offset of the 4-byte little-endian audio sample rate in hertz.
pub const SAMPLE_RATE_OFFSET: usize = 6;

/// Byte offset of the 1-byte audio channel count.
pub const CHANNELS_OFFSET: usize = 10;

/// Byte offset of the 1-byte audio bits-per-sample value.
pub const BITS_PER_SAMPLE_OFFSET: usize = 11;

/// Byte offset of the reserved region within the header.
pub const RESERVED_OFFSET: usize = 14;

/// Number of reserved bytes after the per-type metadata.
pub const RESERVED_LEN: usize = 2;

/// Total size of the fixed header: 4 (magic) + 1 (version) + 1 (file_type)
/// + 8 (per-type metadata) + 2 (reserved).
pub const HEADER_SIZE: usize = 16;

/// Which kind of payload follows the header.
#[derive(Debug, Clone, Copy, PartialEq, Eq, Structural)]
pub enum FileType {
    Image,
    Text,
    Audio,
}

/// The on-disk byte of each file type.
pub open spec fn spec_type_byte(t: FileType) -> u8 {
    match t {
        FileType::Image => FILE_TYPE_IMAGE,
        FileType::Text => FILE_TYPE_TEXT,
        FileType::Audio => FILE_TYPE_AUDIO,
    }
}

/// The file type an on-disk byte names, if any.
pub open spec fn spec_type_of_byte(byte: u8) -> Option<FileType> {
    if byte == FILE_TYPE_IMAGE {
        Some(FileType::Image)
    } else if byte == FILE_TYPE_TEXT {
        Some(FileType::Text)
    } else if byte == FILE_TYPE_AUDIO {
        Some(FileType::Audio)
    } else {
        None
    }
}

/// The human-readable name of each file type.
pub open spec fn spec_label(t: FileType) -> Seq<char> {
    match t {
        FileType::Image => "image"@,
        FileType::Text => "text"@,
        FileType::Audio => "audio"@,
    }
}

impl FileType {
    /// Maps a FileType to its on-disk byte.
    fn to_byte(self) -> (byte: u8)
        ensures
            byte == spec_type_byte(self),
    {
        match self {
            FileType::Image => FILE_TYPE_IMAGE,
            FileType::Text => FILE_TYPE_TEXT,
            FileType::Audio => FILE_TYPE_AUDIO,
        }
    }

    /// Maps an on-disk byte to a FileType, refusing any byte that is not a known
    /// file type rather than defaulting to one.
    fn from_byte(byte: u8) -> (r: Result<FileType, DecayError>)
        ensures
            match spec_type_of_byte(byte) {
                Some(t) => r == Ok::<FileType, DecayError>(t),
                None => r == Err::<FileType, DecayError>(
                    DecayError::UnsupportedFileType { found: byte },
                ),
            },
    {
        match byte {
            FILE_TYPE_IMAGE => Ok(FileType::Image),
            FILE_TYPE_TEXT => Ok(FileType::Text),
            FILE_TYPE_AUDIO => Ok(FileType::Audio),
            other => Err(DecayError::UnsupportedFileType { found: other }),
        }
    }

    /// A short human-readable name for this file type, used in error messages when
    /// the filename's extension and the header disagree about the payload type.
    pub fn label(self) -> (name: &'static str)
        ensures
            name@ == spec_label(self),
    {
        match self {
            FileType::Image => "image",
            FileType::Text => "text",
            FileType::Audio => "audio",
        }
    }
}

/// The pixel dimensions of an image payload.
#[derive(Debug, Clone, Copy, PartialEq, Eq, Structural)]
pub struct ImageDimensions {
    pub width: u32,
    pub height: u32,
}

/// The playback parameters of an audio payload.
#[derive(Debug, Clone, Copy, PartialEq, Eq, Structural)]
pub struct AudioSpec {
    pub sample_rate: u32,
    pub channels: u8,
    pub bits_per_sample: u8,
}

/// The per-type metadata carried in header bytes 6..14.
#[derive(Debug, Clone, Copy, PartialEq, Eq, Structural)]
pub enum Metadata {
    Image(ImageDimensions),
    Text,
    Audio(AudioSpec),
}

/// The parsed, validated header of a decayfmt file: the payload type and the
/// per-type metadata needed to interpret the payload that follows.
#[derive(Debug, Clone, Copy, PartialEq, Eq, Structural)]
pub struct Header {
    pub file_type: FileType,
    pub metadata: Metadata,
}

impl Header {
    /// The metadata variant is the one the file type calls for, as every header
    /// built by the constructors below is.
    pub open spec fn wf(self) -> bool {
        match self.metadata {
            Metadata::Image(_) => self.file_type == FileType::Image,
            Metadata::Text => self.file_type == FileType::Text,
            Metadata::Audio(_) => self.file_type == FileType::Audio,
        }
    }
}

/// The four little-endian bytes of `v`.
pub open spec fn le_bytes(v: u32) -> Seq<u8> {
    seq![
        (v % 256) as u8,
        ((v / 256) % 256) as u8,
        ((v / 65536) % 256) as u8,
        (v / 16777216) as u8,
    ]
}

/// The little-endian `u32` held in `b[at..at + 4]`.
pub open spec fn le_value(b: Seq<u8>, at: int) -> u32 {
    (b[at] + 256 * b[at + 1] + 65536 * b[at + 2] + 16777216 * b[at + 3]) as u32
}

/// The magic bytes as a sequence.
pub open spec fn magic_bytes() -> Seq<u8> {
    seq![0x44u8, 0x43u8, 0x59u8, 0x46u8]
}

/// The eight bytes of the per-type metadata region that `m` is written as.
pub open spec fn spec_metadata_bytes(m: Metadata) -> Seq<u8> {
    match m {
        Metadata::Image(d) => le_bytes(d.width) + le_bytes(d.height),
        Metadata::Text => seq![0u8, 0u8, 0u8, 0u8, 0u8, 0u8, 0u8, 0u8],
        Metadata::Audio(a) => le_bytes(a.sample_rate) + seq![
            a.channels,
            a.bits_per_sample,
            0u8,
            0u8,
        ],
    }
}

/// The 16 bytes a header is written as.
pub open spec fn spec_header_bytes(h: Header) -> Seq<u8> {
    magic_bytes() + seq![VERSION, spec_type_byte(h.file_type)] + spec_metadata_bytes(h.metadata)
        + seq![0u8, 0u8]
}

/// The metadata a buffer's region 6..14 is read as, for a payload of type `t`.
pub open spec fn spec_metadata_of(t: FileType, buf: Seq<u8>) -> Metadata {
    match t {
        FileType::Image => Metadata::Image(
            ImageDimensions {
                width: le_value(buf, WIDTH_OFFSET as int),
                height: le_value(buf, HEIGHT_OFFSET as int),
            },
        ),
        FileType::Text => Metadata::Text,
        FileType::Audio => Metadata::Audio(
            AudioSpec {
                sample_rate: le_value(buf, SAMPLE_RATE_OFFSET as int),
                channels: buf[CHANNELS_OFFSET as int],
                bits_per_sample: buf[BITS_PER_SAMPLE_OFFSET as int],
            },
        ),
    }
}

/// The buffer starts with the magic bytes.
pub open spec fn has_magic(buf: Seq<u8>) -> bool {
    buf.subrange(0, 4) == magic_bytes()
}

/// The header a buffer holds, when it holds one this build accepts: long enough,
/// with the magic, this build's version and a known file type.
pub open spec fn spec_decode_header(buf: Seq<u8>) -> Option<Header> {
    if buf.len() >= HEADER_SIZE && has_magic(buf) && buf[4] == VERSION && spec_type_of_byte(
        buf[5],
    ) is Some {
        let t = spec_type_of_byte(buf[5]).unwrap();
        Some(Header { file_type: t, metadata: spec_metadata_of(t, buf) })
    } else {
        None
    }
}

/// `r` is what reading a header from `buf` gives: a buffer shorter than the header,
/// without the magic, of another version or of an unknown file type is refused with
/// the error that says so; any other buffer reads as the header it holds.
pub open spec fn read_outcome(buf: Seq<u8>, r: Result<Header, DecayError>) -> bool {
    &&& buf.len() < HEADER_SIZE ==> r == Err::<Header, DecayError>(
        DecayError::PayloadTooSmall { found: buf.len() as usize, needed: HEADER_SIZE },
    )
    &&& buf.len() >= HEADER_SIZE && !has_magic(buf) ==> (r matches Err(
        DecayError::WrongMagic { found },
    ) && found@ == buf.subrange(0, 4))
    &&& buf.len() >= HEADER_SIZE && has_magic(buf) && buf[4] != VERSION ==> r == Err::<
        Header,
        DecayError,
    >(DecayError::UnsupportedVersion { found: buf[4] })
    &&& buf.len() >= HEADER_SIZE && has_magic(buf) && buf[4] == VERSION && spec_type_of_byte(
        buf[5],
    ) is None ==> r == Err::<Header, DecayError>(DecayError::UnsupportedFileType { found: buf[5] })
    &&& r is Ok <==> spec_decode_header(buf) is Some
    &&& r matches Ok(h) ==> h == spec_decode_header(buf).unwrap() && h.wf()
}

/// Writes `v` little-endian into `bytes[at..at + 4]`.
fn put_u32_le(bytes: &mut [u8; HEADER_SIZE], at: usize, v: u32)
    requires
        at + 4 <= HEADER_SIZE,
    ensures
        final(bytes)@ == old(bytes)@.subrange(0, at as int) + le_bytes(v) + old(bytes)@.subrange(
            at + 4,
            HEADER_SIZE as int,
        ),
{
    bytes[at] = (v % 256) as u8;
    bytes[at + 1] = ((v / 256) % 256) as u8;
    bytes[at + 2] = ((v / 65536) % 256) as u8;
    bytes[at + 3] = (v / 16777216) as u8;
    assert(bytes@ =~= old(bytes)@.subrange(0, at as int) + le_bytes(v) + old(bytes)@.subrange(
        at + 4,
        HEADER_SIZE as int,
    ));
}

/// Reads a little-endian u32 from `buffer` at `offset`.
fn read_u32_le(buffer: &[u8], offset: usize) -> (v: u32)
    requires
        offset + 4 <= buffer@.len(),
    ensures
        v == le_value(buffer@, offset as int),
{
    let b0 = buffer[offset] as u32;
    let b1 = buffer[offset + 1] as u32;
    let b2 = buffer[offset + 2] as u32;
    let b3 = buffer[offset + 3] as u32;
    b0 + 256 * b1 + 65536 * b2 + 16777216 * b3
}

impl Header {
    /// Builds a header for an image payload of the given pixel dimensions.
    pub fn for_image(width: u32, height: u32) -> (h: Header)
        ensures
            h == (Header {
                file_type: FileType::Image,
                metadata: Metadata::Image(ImageDimensions { width, height }),
            }),
            h.wf(),
    {
        Header {
            file_type: FileType::Image,
            metadata: Metadata::Image(ImageDimensions { width, height }),
        }
    }

    /// Builds a header for a text payload, which carries no metadata.
    pub fn for_text() -> (h: Header)
        ensures
            h == (Header { file_type: FileType::Text, metadata: Metadata::Text }),
            h.wf(),
    {
        Header { file_type: FileType::Text, metadata: Metadata::Text }
    }

    /// Builds a header for an audio payload with the given playback parameters.
    pub fn for_audio(sample_rate: u32, channels: u8, bits_per_sample: u8) -> (h: Header)
        ensures
            h == (Header {
                file_type: FileType::Audio,
                metadata: Metadata::Audio(AudioSpec { sample_rate, channels, bits_per_sample }),
            }),
            h.wf(),
    {
        Header {
            file_type: FileType::Audio,
            metadata: Metadata::Audio(AudioSpec { sample_rate, channels, bits_per_sample }),
        }
    }

    /// Returns the image dimensions when this header describes an image.
    pub fn image_dimensions(&self) -> (r: Option<ImageDimensions>)
        ensures
            r == match self.metadata {
                Metadata::Image(d) => Some(d),
                _ => None::<ImageDimensions>,
            },
    {
        match self.metadata {
            Metadata::Image(dimensions) => Some(dimensions),
            _ => None,
        }
    }

    /// Returns the audio spec when this header describes an audio payload.
    pub fn audio_spec(&self) -> (r: Option<AudioSpec>)
        ensures
            r == match self.metadata {
                Metadata::Audio(a) => Some(a),
                _ => None::<AudioSpec>,
            },
    {
        match self.metadata {
            Metadata::Audio(spec) => Some(spec),
            _ => None,
        }
    }

    /// Serializes the header to its fixed 16-byte on-disk form.
    ///
    /// The reserved bytes are always zero. The metadata region is written according
    /// to the metadata: image dimensions as two little-endian u32 values, audio as a
    /// little-endian u32 sample rate followed by two single-byte fields, and text
    /// leaves the region zero.
    pub fn write(&self) -> (bytes: [u8; HEADER_SIZE])
        ensures
            bytes@ == spec_header_bytes(*self),
    {
        let mut bytes = [0u8; HEADER_SIZE];
        bytes[0] = MAGIC[0];
        bytes[1] = MAGIC[1];
        bytes[2] = MAGIC[2];
        bytes[3] = MAGIC[3];
        bytes[4] = VERSION;
        bytes[5] = self.file_type.to_byte();
        let ghost prefix = bytes@.subrange(0, 6);
        assert(prefix =~= magic_bytes() + seq![VERSION, spec_type_byte(self.file_type)]);
        match self.metadata {
            Metadata::Image(dimensions) => {
                put_u32_le(&mut bytes, WIDTH_OFFSET, dimensions.width);
                put_u32_le(&mut bytes, HEIGHT_OFFSET, dimensions.height);
            },
            Metadata::Audio(spec) => {
                put_u32_le(&mut bytes, SAMPLE_RATE_OFFSET, spec.sample_rate);
                bytes[CHANNELS_OFFSET] = spec.channels;
                bytes[BITS_PER_SAMPLE_OFFSET] = spec.bits_per_sample;
            },
            Metadata::Text => {},
        }
        assert(bytes@ =~= spec_header_bytes(*self));
        bytes
    }

    /// Parses and validates a header from the start of a buffer.
    ///
    /// A header is only accepted if its magic and version match this build exactly
    /// and its file type is known. The metadata region is read according to the file
    /// type; the reserved bytes, and whatever follows the header, are ignored.
    pub fn read(buffer: &[u8]) -> (r: Result<Header, DecayError>)
        ensures
            read_outcome(buffer@, r),
    {
        if buffer.len() < HEADER_SIZE {
            return Err(DecayError::PayloadTooSmall { found: buffer.len(), needed: HEADER_SIZE });
        }
        let found_magic: [u8; 4] = [buffer[0], buffer[1], buffer[2], buffer[3]];
        if !(found_magic[0] == MAGIC[0] && found_magic[1] == MAGIC[1] && found_magic[2] == MAGIC[2]
            && found_magic[3] == MAGIC[3]) {
            assert(!has_magic(buffer@)) by {
                if has_magic(buffer@) {
                    assert(buffer@.subrange(0, 4)[0] == buffer@[0]);
                    assert(buffer@.subrange(0, 4)[1] == buffer@[1]);
                    assert(buffer@.subrange(0, 4)[2] == buffer@[2]);
                    assert(buffer@.subrange(0, 4)[3] == buffer@[3]);
                }
            }
            assert(found_magic@ =~= buffer@.subrange(0, 4));
            return Err(DecayError::WrongMagic { found: found_magic });
        }
        assert(has_magic(buffer@)) by {
            assert(buffer@.subrange(0, 4) =~= magic_bytes());
        }
        let version = buffer[4];
        if version != VERSION {
            return Err(DecayError::UnsupportedVersion { found: version });
        }
        let file_type = FileType::from_byte(buffer[5])?;
        let metadata = match file_type {
            FileType::Image => Metadata::Image(
                ImageDimensions {
                    width: read_u32_le(buffer, WIDTH_OFFSET),
                    height: read_u32_le(buffer, HEIGHT_OFFSET),
                },
            ),
            FileType::Text => Metadata::Text,
            FileType::Audio => Metadata::Audio(
                AudioSpec {
                    sample_rate: read_u32_le(buffer, SAMPLE_RATE_OFFSET),
                    channels: buffer[CHANNELS_OFFSET],
                    bits_per_sample: buffer[BITS_PER_SAMPLE_OFFSET],
                },
            ),
        };
        Ok(Header { file_type, metadata })
    }
}


/// The four characters of a decayfmt extension prefix whose first letter is `kind`.
pub open spec fn prefix_chars(kind: char) -> Seq<char> {
    seq![kind, 'd', 'c', 'y']
}

/// The payload type a decayfmt extension prefix names, and the rest of the
/// extension after that prefix, or None when the extension has no such prefix.
pub open spec fn spec_split_prefix(ext: Seq<char>) -> Option<(FileType, Seq<char>)> {
    let rest = ext.subrange(4, ext.len() as int);
    if ext.len() >= 4 && ext.subrange(0, 4) == prefix_chars('i') {
        Some((FileType::Image, rest))
    } else if ext.len() >= 4 && ext.subrange(0, 4) == prefix_chars('t') {
        Some((FileType::Text, rest))
    } else if ext.len() >= 4 && ext.subrange(0, 4) == prefix_chars('a') {
        Some((FileType::Audio, rest))
    } else {
        None
    }
}

/// The character is one of the ASCII digits `0` to `9`.
pub open spec fn is_ascii_digit(c: char) -> bool {
    '0' <= c && c <= '9'
}

/// Every character of `s` is an ASCII digit.
pub open spec fn all_ascii_digits(s: Seq<char>) -> bool {
    forall|i: int| 0 <= i < s.len() ==> is_ascii_digit(#[trigger] s[i])
}

/// The number that a run of ASCII digits spells in decimal.
pub open spec fn decimal_value(s: Seq<char>) -> nat
    decreases s.len(),
{
    if s.len() == 0 {
        0
    } else {
        decimal_value(s.drop_last()) * 10 + (s.last() as int - '0' as int) as nat
    }
}

/// The ASCII digit of a value below ten.
pub open spec fn decimal_digit(d: nat) -> char {
    (d + 48) as char
}

/// The decimal text of `n`: its digits, most significant first, with no sign and
/// no leading zeros.
pub open spec fn decimal_text(n: nat) -> Seq<char>
    decreases n,
{
    if n < 10 {
        seq![decimal_digit(n)]
    } else {
        decimal_text(n / 10) + seq![decimal_digit(n % 10)]
    }
}

/// The one-character text of a decimal digit.
fn digit_text(d: u64) -> (text: &'static str)
    requires
        d < 10,
    ensures
        text@ == seq![decimal_digit(d as nat)],
{
    proof {
        reveal_strlit("0");
        reveal_strlit("1");
        reveal_strlit("2");
        reveal_strlit("3");
        reveal_strlit("4");
        reveal_strlit("5");
        reveal_strlit("6");
        reveal_strlit("7");
        reveal_strlit("8");
        reveal_strlit("9");
    }
    match d {
        0 => "0",
        1 => "1",
        2 => "2",
        3 => "3",
        4 => "4",
        5 => "5",
        6 => "6",
        7 => "7",
        8 => "8",
        _ => "9",
    }
}

/// The decimal text of `n`, as `ToString::to_string` writes an unsigned integer:
/// the digits, most significant first, with no sign, padding or leading zeros.
pub(crate) fn decimal_text_of(n: u64) -> (text: String)
    ensures
        text@ == decimal_text(n as nat),
    decreases n,
{
    if n < 10 {
        String::from_str(digit_text(n))
    } else {
        let mut text = decimal_text_of(n / 10);
        text.append(digit_text(n % 10));
        text
    }
}

/// The ways a name can fail to fit the decayfmt filename convention.
#[derive(Debug, Clone, Copy, PartialEq, Eq, Structural)]
pub enum NameFault {
    /// The extension has none of the decayfmt prefixes.
    UnrecognizedExtension,
    /// No x follows the prefix, or it is not a run of ASCII digits.
    NoX,
    /// x is zero.
    NotPositive,
    /// x does not fit a `u32`.
    OutOfRange,
}

/// What an extension says under the filename convention: the payload type and x,
/// or the way it fails to fit.
pub open spec fn spec_parse_extension(ext: Seq<char>) -> Result<(FileType, u32), NameFault> {
    match spec_split_prefix(ext) {
        None => Err(NameFault::UnrecognizedExtension),
        Some((t, digits)) => {
            if digits.len() == 0 || !all_ascii_digits(digits) {
                Err(NameFault::NoX)
            } else if decimal_value(digits) > u32::MAX {
                Err(NameFault::OutOfRange)
            } else if decimal_value(digits) == 0 {
                Err(NameFault::NotPositive)
            } else {
                Ok((t, decimal_value(digits) as u32))
            }
        },
    }
}

/// `e` is the error that reports `fault` for the extension `ext` of the path `path`.
pub open spec fn reports_name_fault(
    e: DecayError,
    fault: NameFault,
    ext: Seq<char>,
    path: Seq<char>,
) -> bool {
    match fault {
        NameFault::UnrecognizedExtension => e matches DecayError::UnrecognizedExtension {
            extension,
        } && extension@ == ext,
        NameFault::NoX => e matches DecayError::FilenameNoX { filename } && filename@ == path,
        NameFault::NotPositive => e == DecayError::XNotPositive { value: 0 },
        NameFault::OutOfRange => e matches DecayError::XOutOfRange { value } && value@
            == ext.subrange(4, ext.len() as int),
    }
}

/// `r` is the outcome of parsing the extension `ext` of the path `path`.
pub open spec fn parse_outcome(
    r: Result<(FileType, u32), DecayError>,
    ext: Seq<char>,
    path: Seq<char>,
) -> bool {
    match spec_parse_extension(ext) {
        Ok(v) => r == Ok::<(FileType, u32), DecayError>(v),
        Err(fault) => r matches Err(e) && reports_name_fault(e, fault, ext, path),
    }
}

/// The extension of a path, as `std::path::Path::extension` extracts it from the
/// path's final component, or the empty text when the path has none.
pub uninterp spec fn path_extension(path: Seq<char>) -> Seq<char>;

/// `std::path::Path::extension` on the path written as `path`, with no extension
/// taken as the empty text. What the extension is, the name [`path_extension`]
/// holds; the rules by which std splits a path into components are not restated.
#[verifier::external_body]
pub(crate) fn extension_of(path: &str) -> (ext: String)
    ensures
        ext@ == path_extension(path@),
{
    std::path::Path::new(path).extension().and_then(|raw| raw.to_str()).unwrap_or("").to_string()
}

/// The value of a run of digits never falls as more digits follow.
proof fn lemma_decimal_value_grows(s: Seq<char>, i: int, j: int)
    requires
        0 <= i <= j <= s.len(),
        all_ascii_digits(s),
    ensures
        decimal_value(s.subrange(0, i)) <= decimal_value(s.subrange(0, j)),
    decreases j - i,
{
    if i < j {
        lemma_decimal_value_grows(s, i, j - 1);
        let t = s.subrange(0, j);
        assert(t.drop_last() =~= s.subrange(0, j - 1));
        assert(is_ascii_digit(s[j - 1]));
    }
}

/// The value of a non-empty run of ASCII digits, as `u32::from_str` reads it:
/// the decimal value when it fits a `u32`, and None when it overflows.
fn parse_u32_digits(digits: &str) -> (r: Option<u32>)
    requires
        digits@.len() > 0,
        all_ascii_digits(digits@),
    ensures
        decimal_value(digits@) <= u32::MAX ==> r == Some(decimal_value(digits@) as u32),
        decimal_value(digits@) > u32::MAX ==> r is None,
{
    let n = digits.unicode_len();
    let mut value: u32 = 0;
    let mut i: usize = 0;
    assert(digits@.subrange(0, 0) =~= Seq::<char>::empty());
    while i < n
        invariant
            n == digits@.len(),
            i <= n,
            all_ascii_digits(digits@),
            value == decimal_value(digits@.subrange(0, i as int)),
        decreases n - i,
    {
        let c = digits.get_char(i);
        assert(is_ascii_digit(digits@[i as int]));
        let d: u32 = (c as u32) - 48;
        let ghost next = digits@.subrange(0, i + 1);
        assert(next.drop_last() =~= digits@.subrange(0, i as int));
        assert(decimal_value(next) == value * 10 + d);
        let step = match value.checked_mul(10) {
            Some(tens) => tens.checked_add(d),
            None => None,
        };
        match step {
            Some(v) => {
                value = v;
            },
            None => {
                proof {
                    lemma_decimal_value_grows(digits@, i + 1, n as int);
                    assert(digits@.subrange(0, n as int) =~= digits@);
                }
                return None;
            },
        }
        i = i + 1;
    }
    assert(digits@.subrange(0, n as int) =~= digits@);
    Some(value)
}

/// The rest of `ext` after the four-character prefix `kind`, `d`, `c`, `y`, when
/// `ext` starts with that prefix.
fn strip_kind_prefix(ext: &str, kind: char) -> (r: Option<&str>)
    ensures
        match r {
            Some(rest) => ext@.len() >= 4 && ext@.subrange(0, 4) == prefix_chars(kind) && rest@
                == ext@.subrange(4, ext@.len() as int),
            None => !(ext@.len() >= 4 && ext@.subrange(0, 4) == prefix_chars(kind)),
        },
{
    let n = ext.unicode_len();
    if n < 4 {
        return None;
    }
    let c0 = ext.get_char(0);
    let c1 = ext.get_char(1);
    let c2 = ext.get_char(2);
    let c3 = ext.get_char(3);
    if c0 == kind && c1 == 'd' && c2 == 'c' && c3 == 'y' {
        assert(ext@.subrange(0, 4) =~= prefix_chars(kind));
        Some(ext.substring_char(4, n))
    } else {
        assert(ext@.subrange(0, 4) != prefix_chars(kind)) by {
            if ext@.subrange(0, 4) == prefix_chars(kind) {
                assert(ext@.subrange(0, 4)[0] == c0);
                assert(ext@.subrange(0, 4)[1] == c1);
                assert(ext@.subrange(0, 4)[2] == c2);
                assert(ext@.subrange(0, 4)[3] == c3);
            }
        }
        None
    }
}

/// Whether every character of `s` is an ASCII digit.
fn is_all_ascii_digits(s: &str) -> (r: bool)
    ensures
        r == all_ascii_digits(s@),
{
    let n = s.unicode_len();
    let mut i: usize = 0;
    while i < n
        invariant
            n == s@.len(),
            i <= n,
            forall|j: int| 0 <= j < i ==> is_ascii_digit(#[trigger] s@[j]),
        decreases n - i,
    {
        let c = s.get_char(i);
        if !(c >= '0' && c <= '9') {
            return false;
        }
        i = i + 1;
    }
    true
}

/// Parses an extension under the decayfmt filename convention into the payload
/// type and the instability x.
///
/// `extension` is the extension of the file named `path`; `path` only names the
/// file in a refusal. The payload type comes from the prefix and x from the digits
/// after it. Every way an extension can fail to fit is a distinct error: an
/// unrecognized prefix, a missing or non-numeric x, a zero x, or an x too large for
/// a `u32`.
pub fn parse_extension(extension: &str, path: &str) -> (r: Result<(FileType, u32), DecayError>)
    ensures
        parse_outcome(r, extension@, path@),
{
    let (file_type, digits) = if let Some(rest) = strip_kind_prefix(extension, 'i') {
        (FileType::Image, rest)
    } else if let Some(rest) = strip_kind_prefix(extension, 't') {
        (FileType::Text, rest)
    } else if let Some(rest) = strip_kind_prefix(extension, 'a') {
        (FileType::Audio, rest)
    } else {
        return Err(DecayError::UnrecognizedExtension { extension: String::from_str(extension) });
    };
    if digits.unicode_len() == 0 || !is_all_ascii_digits(digits) {
        return Err(DecayError::FilenameNoX { filename: String::from_str(path) });
    }
    match parse_u32_digits(digits) {
        Some(0) => Err(DecayError::XNotPositive { value: 0 }),
        Some(value) => Ok((file_type, value)),
        None => Err(DecayError::XOutOfRange { value: String::from_str(digits) }),
    }
}

/// Parses the decayfmt filename convention into the payload type and instability x.
///
/// The convention is `name.idcy<x>` for images, `name.tdcy<x>` for text, and
/// `name.adcy<x>` for audio, where x is a positive integer. Both encode and open go
/// through here, so the naming rule lives in exactly one place. x is never inferred
/// from anywhere but the filename.
pub fn parse_filename(path: &str) -> (r: Result<(FileType, u32), DecayError>)
    ensures
        parse_outcome(r, path_extension(path@), path@),
{
    let extension = extension_of(path);
    parse_extension(extension.as_str(), path)
}

/// An extension the convention accepts gives a positive x, and the payload type
/// its prefix names.
pub proof fn lemma_accepted_extension_has_positive_x(ext: Seq<char>)
    ensures
        spec_parse_extension(ext) matches Ok((file_type, x)) ==> x >= 1,
        spec_parse_extension(ext) matches Ok((file_type, x)) ==> (spec_split_prefix(ext) matches Some(
            (prefix_type, _),
        ) && prefix_type == file_type),
{
}

/// Reading back the four little-endian bytes of `v` gives `v`.
pub proof fn lemma_le_round_trip(v: u32)
    ensures
        le_value(le_bytes(v), 0) == v,
{
    let b = le_bytes(v);
    let q1 = v / 256;
    let q2 = v / 65536;
    assert(q1 / 256 == q2) by (nonlinear_arith)
        requires
            q1 == v / 256,
            q2 == v / 65536,
    ;
    assert(v / 16777216 == q2 / 256) by (nonlinear_arith)
        requires
            q2 == v / 65536,
    ;
    assert(v == v % 256 + 256 * q1) by (nonlinear_arith)
        requires
            q1 == v / 256,
    ;
    assert(q1 == q1 % 256 + 256 * q2) by (nonlinear_arith)
        requires
            q1 / 256 == q2,
    ;
    assert(q2 == q2 % 256 + 256 * (q2 / 256)) by (nonlinear_arith);
    assert(q2 < 65536) by (nonlinear_arith)
        requires
            q2 == v / 65536,
            v <= 0xffff_ffff,
    ;
}

/// Each file type's on-disk byte names that file type again.
pub proof fn lemma_type_byte_round_trip(t: FileType)
    ensures
        spec_type_of_byte(spec_type_byte(t)) == Some(t),
{
}

/// A written header is 16 bytes: the magic, this build's version, the file type
/// byte, the metadata region, and two reserved bytes that are always zero.
pub proof fn lemma_header_layout(h: Header)
    ensures
        spec_header_bytes(h).len() == HEADER_SIZE,
        spec_header_bytes(h).subrange(0, 4) == magic_bytes(),
        spec_header_bytes(h)[4] == VERSION,
        spec_header_bytes(h)[5] == spec_type_byte(h.file_type),
        spec_header_bytes(h)[14] == 0,
        spec_header_bytes(h)[15] == 0,
{
    assert(spec_header_bytes(h).subrange(0, 4) =~= magic_bytes());
}

/// Writing a header and reading it back gives the same header, for every header
/// whose metadata is the kind its file type calls for.
pub proof fn lemma_header_round_trip(h: Header)
    requires
        h.wf(),
    ensures
        spec_decode_header(spec_header_bytes(h)) == Some(h),
{
    let b = spec_header_bytes(h);
    lemma_header_layout(h);
    match h.metadata {
        Metadata::Image(d) => {
            lemma_le_round_trip(d.width);
            lemma_le_round_trip(d.height);
            assert(b.subrange(6, 10) =~= le_bytes(d.width));
            assert(b.subrange(10, 14) =~= le_bytes(d.height));
            assert(le_value(b, 6) == le_value(b.subrange(6, 10), 0));
            assert(le_value(b, 10) == le_value(b.subrange(10, 14), 0));
        },
        Metadata::Text => {},
        Metadata::Audio(a) => {
            lemma_le_round_trip(a.sample_rate);
            assert(b.subrange(6, 10) =~= le_bytes(a.sample_rate));
            assert(le_value(b, 6) == le_value(b.subrange(6, 10), 0));
        },
    }
}

/// What a buffer reads as depends only on its first 14 bytes: the reserved bytes
/// and everything after the header are ignored.
pub proof fn lemma_read_ignores_reserved_and_payload(b1: Seq<u8>, b2: Seq<u8>)
    requires
        b1.len() >= HEADER_SIZE,
        b2.len() >= HEADER_SIZE,
        b1.subrange(0, RESERVED_OFFSET as int) == b2.subrange(0, RESERVED_OFFSET as int),
    ensures
        spec_decode_header(b1) == spec_decode_header(b2),
{
    assert forall|i: int| 0 <= i < RESERVED_OFFSET implies b1[i] == b2[i] by {
        assert(b1[i] == b1.subrange(0, RESERVED_OFFSET as int)[i]);
        assert(b2[i] == b2.subrange(0, RESERVED_OFFSET as int)[i]);
    }
    assert(b1.subrange(0, 4) =~= b2.subrange(0, 4));
}

} // verus!
