//! The decisions of opening a decayfmt file: which headers may be opened under
//! which names, what an open does to the file's bytes, and how a decayed payload
//! is handed to a viewer or player.
//!
//! An open parses x from the filename, reads the header, refuses a header whose
//! type disagrees with the name, and corrupts the payload; the header is never
//! changed and the length is kept. Reading and writing the file, and launching the
//! viewer, are the caller's business.

use crate::corrupt::{
    corrupt_payload, corruption_outcome, drawn_outcome, is_entropy_error, spec_eligible_len,
};
use crate::error::DecayError;
use crate::format::{
    decimal_text, decimal_text_of, lemma_read_ignores_reserved_and_payload, read_outcome, spec_decode_header, spec_label, AudioSpec, FileType, Header, ImageDimensions,
    AUDIO_BITS_PER_SAMPLE, AUDIO_BYTES_PER_SAMPLE, HEADER_SIZE,
};
use vstd::prelude::*;

verus! {

/// `r` is what checking `file_bytes` for an open under a name of type
/// `filename_type` gives: the header's refusal when the bytes hold no header this
/// build reads; a mismatch, naming both types, when the header's type is not the
/// name's; the header otherwise.
pub open spec fn open_check_outcome(
    file_bytes: Seq<u8>,
    filename_type: FileType,
    r: Result<Header, DecayError>,
) -> bool {
    match spec_decode_header(file_bytes) {
        None => read_outcome(file_bytes, r),
        Some(header) => if header.file_type == filename_type {
            r == Ok::<Header, DecayError>(header)
        } else {
            r matches Err(DecayError::MismatchedFileType { extension_kind, header_kind })
                && extension_kind@ == spec_label(filename_type) && header_kind@ == spec_label(
                header.file_type,
            )
        },
    }
}

/// Reads the header of a file about to be opened under a name of type
/// `filename_type`. The name and the header must agree on the payload type; when
/// they disagree, for example an image renamed to a text name, the open is refused
/// rather than trusting either.
pub fn check_open_header(file_bytes: &[u8], filename_type: FileType) -> (r: Result<Header, DecayError>)
    ensures
        open_check_outcome(file_bytes@, filename_type, r),
{
    let header = Header::read(file_bytes)?;
    if filename_type != header.file_type {
        return Err(
            DecayError::MismatchedFileType {
                extension_kind: filename_type.label(),
                header_kind: header.file_type.label(),
            },
        );
    }
    Ok(header)
}

/// The file's header passes the check for a name of type `filename_type`, and its
/// payload has no byte eligible for corruption, so an open has nothing to decay.
pub open spec fn nothing_to_decay(file_bytes: Seq<u8>, filename_type: FileType) -> bool {
    &&& spec_decode_header(file_bytes) matches Some(header)
    &&& header.file_type == filename_type
    &&& file_bytes.len() >= HEADER_SIZE
    &&& spec_eligible_len((file_bytes.len() - HEADER_SIZE) as nat, header.file_type) == 0
}

/// Decays the bytes of a whole decayfmt file in place, as one open does: checks the
/// header against the name's payload type, then corrupts everything after the
/// header with the given threshold. The header bytes are never changed and the
/// length is kept; a refused open changes nothing. Besides the refusals of the
/// header check, the one refusal is that no generator could be seeded from
/// operating system entropy, which comes only once the header has passed.
pub fn decay_bytes(file_bytes: &mut [u8], filename_type: FileType, threshold: u16) -> (r: Result<
    Header,
    DecayError,
>)
    ensures
        !(r matches Err(e) && is_entropy_error(e)) ==> open_check_outcome(
            old(file_bytes)@,
            filename_type,
            r,
        ),
        r matches Err(e) && is_entropy_error(e) ==> (spec_decode_header(old(file_bytes)@) matches Some(
            header,
        ) && header.file_type == filename_type),
        r is Err ==> final(file_bytes)@ == old(file_bytes)@,
        nothing_to_decay(old(file_bytes)@, filename_type) ==> r == Ok::<Header, DecayError>(
            spec_decode_header(old(file_bytes)@).unwrap(),
        ) && final(file_bytes)@ == old(file_bytes)@,
        r matches Ok(header) ==> {
            &&& final(file_bytes)@.len() == old(file_bytes)@.len()
            &&& final(file_bytes)@.subrange(0, HEADER_SIZE as int) == old(file_bytes)@.subrange(
                0,
                HEADER_SIZE as int,
            )
            &&& corruption_outcome(
                old(file_bytes)@.subrange(HEADER_SIZE as int, old(file_bytes)@.len() as int),
                final(file_bytes)@.subrange(HEADER_SIZE as int, final(file_bytes)@.len() as int),
                header.file_type,
                threshold,
            )
            &&& drawn_outcome(
                old(file_bytes)@.subrange(HEADER_SIZE as int, old(file_bytes)@.len() as int),
                final(file_bytes)@.subrange(HEADER_SIZE as int, final(file_bytes)@.len() as int),
                header.file_type,
                threshold,
            )
        },
{
    let header = check_open_header(file_bytes, filename_type)?;
    let ghost before = file_bytes@;
    let ghost payload_after: Seq<u8>;
    let corrupted: Result<(), DecayError>;
    {
        let (_head, payload) = file_bytes.split_at_mut(HEADER_SIZE);
        corrupted = corrupt_payload(payload, header.file_type, threshold);
        proof {
            payload_after = payload@;
        }
    }
    assert(file_bytes@ =~= before.subrange(0, HEADER_SIZE as int) + payload_after);
    if let Err(e) = corrupted {
        assert(file_bytes@ =~= before);
        return Err(e);
    }
    assert(file_bytes@ =~= before.subrange(0, HEADER_SIZE as int) + payload_after);
    assert(file_bytes@.subrange(0, HEADER_SIZE as int) =~= before.subrange(0, HEADER_SIZE as int));
    assert(file_bytes@.subrange(HEADER_SIZE as int, file_bytes@.len() as int) =~= payload_after);
    proof {
        if nothing_to_decay(before, filename_type) {
            assert(file_bytes@ =~= before);
        }
    }
    Ok(header)
}

/// The signed 16-bit sample held little-endian in two bytes.
pub open spec fn le_sample(low: u8, high: u8) -> i16 {
    (low + 256 * high) as u16 as i16
}

/// The samples of a little-endian 16-bit PCM payload, two bytes each.
pub open spec fn spec_pcm_samples(payload: Seq<u8>) -> Seq<i16> {
    Seq::new(payload.len() / 2, |k: int| le_sample(payload[2 * k], payload[2 * k + 1]))
}

/// The bytes of one frame of audio: one 16-bit sample per channel.
pub open spec fn frame_len(spec: AudioSpec) -> nat {
    (2 * spec.channels) as nat
}

/// `n`, or the largest `usize` when `n` is larger.
pub open spec fn saturating_usize(n: int) -> usize {
    if n <= usize::MAX {
        n as usize
    } else {
        usize::MAX
    }
}

/// The decimal text of a byte's value.
fn byte_text(n: u8) -> (text: String)
    ensures
        text@ == decimal_text(n as nat),
{
    decimal_text_of(n as u64)
}

/// What `String::from_utf8_lossy` reads from `bytes`: their characters, each
/// ill-formed sequence replaced by U+FFFD.
pub uninterp spec fn lossy_decode(bytes: Seq<u8>) -> Seq<char>;

/// `String::from_utf8_lossy`, made an owned string. Its characters are
/// [`lossy_decode`] of the bytes; as its documentation says, well-formed UTF-8
/// decodes to exactly its characters.
#[verifier::external_body]
fn lossy_text(bytes: &[u8]) -> (text: String)
    ensures
        text@ == lossy_decode(bytes@),
        vstd::utf8::valid_utf8(bytes@) ==> text@ == vstd::utf8::decode_utf8(bytes@),
{
    String::from_utf8_lossy(bytes).into_owned()
}

/// Whether a line break must follow `text` for the output to end on a line of its
/// own: exactly when the text does not already end with one.
pub fn needs_line_break(text: &str) -> (b: bool)
    ensures
        b == (text@.len() == 0 || text@.last() != '\n'),
{
    let n = text.unicode_len();
    n == 0 || text.get_char(n - 1) != '\n'
}

/// The text shown of a decayed text payload, read lossily since decay may break
/// UTF-8, and whether a line break must follow it so the output ends on a line of
/// its own.
pub fn text_for_display(payload: &[u8]) -> (r: (String, bool))
    ensures
        r.0@ == lossy_decode(payload@),
        vstd::utf8::valid_utf8(payload@) ==> r.0@ == vstd::utf8::decode_utf8(payload@),
        r.1 == (r.0@.len() == 0 || r.0@.last() != '\n'),
{
    let text = lossy_text(payload);
    let needs_break = needs_line_break(text.as_str());
    (text, needs_break)
}

/// Checks a decayed audio payload against the playback parameters of its header and
/// turns it into samples for a player.
///
/// A header whose bits per sample is not the one this build writes, or that
/// declares zero channels, is refused. A payload that is not a whole number of
/// frames, one sample per channel each, is refused as a size mismatch that names
/// the length of one more whole frame than it holds, rather than played partially.
pub fn pcm_samples(payload: &[u8], spec: AudioSpec) -> (r: Result<Vec<i16>, DecayError>)
    ensures
        spec.bits_per_sample != AUDIO_BITS_PER_SAMPLE ==> (r matches Err(
            DecayError::AudioEncode { context },
        ) && context@ == "open: header declares "@ + decimal_text(spec.bits_per_sample as nat)
            + " bits per sample but this build only writes and plays "@ + decimal_text(
            AUDIO_BITS_PER_SAMPLE as nat,
        ) + "."@),
        spec.bits_per_sample == AUDIO_BITS_PER_SAMPLE && spec.channels == 0 ==> (r matches Err(
            DecayError::AudioEncode { context },
        ) && context@ == "open: header declares zero audio channels."@),
        spec.bits_per_sample == AUDIO_BITS_PER_SAMPLE && spec.channels != 0 && payload@.len() % frame_len(spec) != 0 ==> r == Err::<Vec<i16>, DecayError>(
            DecayError::PayloadSizeMismatch {
                expected: saturating_usize(
                    ((payload@.len() / frame_len(spec) + 1) * frame_len(spec)) as int,
                ),
                found: payload@.len() as usize,
            },
        ),
        spec.bits_per_sample == AUDIO_BITS_PER_SAMPLE && spec.channels != 0 && payload@.len() % frame_len(spec) == 0 ==> (r matches Ok(samples) && samples@ == spec_pcm_samples(
            payload@,
        )),
{
    if spec.bits_per_sample != AUDIO_BITS_PER_SAMPLE {
        let mut context = String::from_str("open: header declares ");
        context.append(byte_text(spec.bits_per_sample).as_str());
        context.append(" bits per sample but this build only writes and plays ");
        context.append(byte_text(AUDIO_BITS_PER_SAMPLE).as_str());
        context.append(".");
        return Err(DecayError::AudioEncode { context });
    }
    if spec.channels == 0 {
        return Err(
            DecayError::AudioEncode {
                context: String::from_str("open: header declares zero audio channels."),
            },
        );
    }
    let bytes_per_frame = AUDIO_BYTES_PER_SAMPLE * spec.channels as usize;
    let len = payload.len();
    if len % bytes_per_frame != 0 {
        let whole_frames = len / bytes_per_frame;
        assert(whole_frames < usize::MAX) by (nonlinear_arith)
            requires
                whole_frames == len / bytes_per_frame,
                bytes_per_frame >= 2,
                len <= usize::MAX,
        ;
        let expected = match (whole_frames + 1).checked_mul(bytes_per_frame) {
            Some(expected) => expected,
            None => usize::MAX,
        };
        return Err(DecayError::PayloadSizeMismatch { expected, found: len });
    }
    let count = len / AUDIO_BYTES_PER_SAMPLE;
    let mut samples: Vec<i16> = Vec::new();
    let mut k: usize = 0;
    while k < count
        invariant
            len == payload@.len(),
            count == len / 2,
            k <= count,
            samples@ =~= spec_pcm_samples(payload@).subrange(0, k as int),
        decreases count - k,
    {
        let low = payload[2 * k];
        let high = payload[2 * k + 1];
        let unsigned: u16 = low as u16 + 256 * (high as u16);
        samples.push(unsigned as i16);
        k = k + 1;
    }
    Ok(samples)
}

/// The number of payload bytes an RGBA image of the given dimensions holds, four
/// per pixel, or the largest `usize` when that number is larger.
pub fn expected_rgba_len(dimensions: ImageDimensions) -> (n: usize)
    ensures
        n == saturating_usize(4 * dimensions.width * dimensions.height),
{
    let width = dimensions.width as usize;
    let height = dimensions.height as usize;
    match width.checked_mul(height) {
        Some(pixels) => match pixels.checked_mul(4) {
            Some(n) => {
                assert(n == 4 * dimensions.width * dimensions.height) by (nonlinear_arith)
                    requires
                        n == pixels * 4,
                        pixels == width * height,
                        width == dimensions.width,
                        height == dimensions.height,
                ;
                n
            },
            None => {
                assert(4 * dimensions.width * dimensions.height > usize::MAX) by (nonlinear_arith)
                    requires
                        pixels * 4 > usize::MAX,
                        pixels == width * height,
                        width == dimensions.width,
                        height == dimensions.height,
                ;
                usize::MAX
            },
        },
        None => {
            assert(4 * dimensions.width * dimensions.height > usize::MAX) by (nonlinear_arith)
                requires
                    width * height > usize::MAX,
                    width == dimensions.width,
                    height == dimensions.height,
            ;
            usize::MAX
        },
    }
}

/// Checks that an RGBA payload holds exactly the pixels its dimensions call for,
/// four bytes each; any other length is refused as a size mismatch that names the
/// expected length, saturated at the largest `usize`.
pub fn check_rgba_payload(payload_len: usize, dimensions: ImageDimensions) -> (r: Result<
    (),
    DecayError,
>)
    ensures
        payload_len == 4 * dimensions.width * dimensions.height ==> r == Ok::<(), DecayError>(()),
        payload_len != 4 * dimensions.width * dimensions.height ==> r == Err::<(), DecayError>(
            DecayError::PayloadSizeMismatch {
                expected: saturating_usize(4 * dimensions.width * dimensions.height),
                found: payload_len,
            },
        ),
{
    let width = dimensions.width as usize;
    let height = dimensions.height as usize;
    let fits = match width.checked_mul(height) {
        Some(pixels) => match pixels.checked_mul(4) {
            Some(n) => {
                assert(n == 4 * dimensions.width * dimensions.height) by (nonlinear_arith)
                    requires
                        n == pixels * 4,
                        pixels == width * height,
                        width == dimensions.width,
                        height == dimensions.height,
                ;
                n == payload_len
            },
            None => {
                assert(4 * dimensions.width * dimensions.height > usize::MAX) by (nonlinear_arith)
                    requires
                        pixels * 4 > usize::MAX,
                        pixels == width * height,
                        width == dimensions.width,
                        height == dimensions.height,
                ;
                false
            },
        },
        None => {
            assert(4 * dimensions.width * dimensions.height > usize::MAX) by (nonlinear_arith)
                requires
                    width * height > usize::MAX,
                    width == dimensions.width,
                    height == dimensions.height,
            ;
            false
        },
    };
    if fits {
        Ok(())
    } else {
        Err(DecayError::PayloadSizeMismatch { expected: expected_rgba_len(dimensions), found: payload_len })
    }
}

/// A file that one open accepted, and that the open left with its header bytes and
/// its length, is accepted by the next open under the same name with the same
/// header: opening never makes a file unopenable.
pub proof fn lemma_decayed_file_reopens(
    before: Seq<u8>,
    after: Seq<u8>,
    filename_type: FileType,
    header: Header,
)
    requires
        open_check_outcome(before, filename_type, Ok::<Header, DecayError>(header)),
        after.len() == before.len(),
        after.subrange(0, HEADER_SIZE as int) == before.subrange(0, HEADER_SIZE as int),
    ensures
        open_check_outcome(after, filename_type, Ok::<Header, DecayError>(header)),
{
    assert(after.subrange(0, 14) =~= after.subrange(0, HEADER_SIZE as int).subrange(0, 14));
    assert(before.subrange(0, 14) =~= before.subrange(0, HEADER_SIZE as int).subrange(0, 14));
    lemma_read_ignores_reserved_and_payload(before, after);
}

} // verus!
