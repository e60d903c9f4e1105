//! Turning source bytes into a decayfmt header and payload.
//!
//! A source image is reduced to raw RGBA, a source text is kept as its UTF-8 bytes
//! exactly, and a source audio file is decoded to interleaved 16-bit PCM. Encoding
//! never corrupts: a freshly encoded file is clean, and only an open decays it.
//! Writing the result to disk is the caller's business.

use crate::error::DecayError;
use crate::format::{
    decimal_text, decimal_text_of, extension_of, lemma_header_layout, lemma_header_round_trip,
    lemma_read_ignores_reserved_and_payload, parse_filename, spec_decode_header, spec_header_bytes, path_extension, reports_name_fault, spec_parse_extension,
    AudioSpec, FileType, Header, ImageDimensions, Metadata, AUDIO_BITS_PER_SAMPLE, HEADER_SIZE,
};
use vstd::prelude::*;

verus! {

/// `std::str::from_utf8` succeeds on `bytes`, that is, they are well-formed UTF-8.
#[verifier::external_body]
fn is_utf8(bytes: &[u8]) -> (valid: bool)
    ensures
        valid == vstd::utf8::valid_utf8(bytes@),
{
    std::str::from_utf8(bytes).is_ok()
}

/// Produces a raw text payload from source bytes, requiring valid UTF-8.
///
/// The payload is the source bytes exactly as read. Invalid UTF-8 is refused at
/// encode time so that only well-formed text ever enters the format; the later
/// corruption at open time is what may break that validity.
pub fn text_payload(source_bytes: Vec<u8>) -> (r: Result<Vec<u8>, DecayError>)
    ensures
        vstd::utf8::valid_utf8(source_bytes@) ==> (r matches Ok(payload) && payload@
            == source_bytes@),
        !vstd::utf8::valid_utf8(source_bytes@) ==> r matches Err(DecayError::InvalidUtf8),
{
    if is_utf8(source_bytes.as_slice()) {
        Ok(source_bytes)
    } else {
        Err(DecayError::InvalidUtf8)
    }
}

/// `image::load_from_memory`, with the decoded image converted by `to_rgba8` to
/// four bytes per pixel, and an error converted to its text. The pixels of a
/// `to_rgba8` image number width times height, four bytes each. Which decoder reads
/// the bytes depends on format and decoder hooks that any code in the process may
/// register, so the same bytes may decode differently; nothing more is stated of
/// the result.
#[verifier::external_body]
fn load_rgba(bytes: &[u8]) -> (r: Result<(u32, u32, Vec<u8>), String>)
    ensures
        r matches Ok((width, height, pixels)) ==> pixels@.len() == 4 * width * height,
{
    match image::load_from_memory(bytes) {
        Ok(decoded) => {
            let rgba = decoded.to_rgba8();
            let (width, height) = rgba.dimensions();
            Ok((width, height, rgba.into_raw()))
        },
        Err(error) => Err(error.to_string()),
    }
}

/// The context of a decoding failure: `encode: decode <what> '<input>': <message>`.
pub open spec fn decode_context(what: Seq<char>, input: Seq<char>, message: Seq<char>) -> Seq<char> {
    "encode: decode "@ + what + " '"@ + input + "': "@ + message
}

/// Builds the context of a decoding failure.
fn make_decode_context(what: &str, input: &str, message: &str) -> (context: String)
    ensures
        context@ == decode_context(what@, input@, message@),
{
    let mut context = String::from_str("encode: decode ");
    context.append(what);
    context.append(" '");
    context.append(input);
    context.append("': ");
    context.append(message);
    context
}

/// `e` reports a decoding failure of the image source named `input`.
pub open spec fn is_image_decode_error(e: DecayError, input: Seq<char>) -> bool {
    e matches DecayError::ImageDecode { context } && exists|message: Seq<char>|
        #[trigger] decode_context("image"@, input, message) == context@
}

/// `r` is what the image decoder's result `decoded` gives for the source named
/// `input`: exactly its width, height and pixels, or the refusal that carries its
/// message.
pub open spec fn image_decoded_as(
    decoded: Result<(u32, u32, Vec<u8>), String>,
    input: Seq<char>,
    r: Result<(u32, u32, Vec<u8>), DecayError>,
) -> bool {
    match decoded {
        Ok((width, height, pixels)) => r matches Ok((w, h, p)) && w == width && h == height
            && p@ == pixels@,
        Err(message) => r matches Err(DecayError::ImageDecode { context }) && context@
            == decode_context("image"@, input, message@),
    }
}

/// Turns what the image decoder returned for the source named `input` into the
/// decoded image, or into the refusal that carries the decoder's message.
pub fn image_from_decoded(decoded: Result<(u32, u32, Vec<u8>), String>, input: &str) -> (r: Result<
    (u32, u32, Vec<u8>),
    DecayError,
>)
    ensures
        match decoded {
            Ok((width, height, pixels)) => r matches Ok((w, h, p)) && w == width && h == height
                && p@ == pixels@,
            Err(message) => r matches Err(DecayError::ImageDecode { context }) && context@
                == decode_context("image"@, input@, message@),
        },
        image_decoded_as(decoded, input@, r),
{
    match decoded {
        Ok(image) => Ok(image),
        Err(message) => Err(
            DecayError::ImageDecode {
                context: make_decode_context("image", input, message.as_str()),
            },
        ),
    }
}

/// Decodes a source image's bytes into its pixel dimensions and a raw RGBA payload,
/// four bytes per pixel. `input` names the source in a refusal.
pub fn decode_image(source_bytes: &[u8], input: &str) -> (r: Result<(u32, u32, Vec<u8>), DecayError>)
    ensures
        r matches Ok((width, height, pixels)) ==> pixels@.len() == 4 * width * height,
        r matches Err(e) ==> is_image_decode_error(e, input@),
        exists|decoded: Result<(u32, u32, Vec<u8>), String>|
            (decoded matches Ok((w, h, p)) ==> p@.len() == 4 * w * h) && #[trigger] image_decoded_as(
                decoded,
                input@,
                r,
            ),
{
    let decoded = load_rgba(source_bytes);
    let ghost returned = decoded;
    let r = image_from_decoded(decoded, input);
    assert(image_decoded_as(returned, input@, r));
    r
}

/// A packet of a container, as symphonia reads it.
#[verifier::external_type_specification]
#[verifier::external_body]
pub struct ExPacket(symphonia::core::packet::Packet);

/// The codec parameters of an audio track, as symphonia reports them.
#[verifier::external_type_specification]
#[verifier::external_body]
pub struct ExAudioCodecParameters(symphonia::core::codecs::audio::AudioCodecParameters);

/// The container reader that symphonia's probe chose for a source.
#[verifier::external_body]
pub struct AudioContainer {
    reader: Box<dyn symphonia::core::formats::FormatReader>,
}

/// An audio decoder that symphonia's codec registry made for a track.
#[verifier::external_body]
pub struct AudioTrackDecoder {
    decoder: Box<dyn symphonia::core::codecs::audio::AudioDecoder>,
}

/// `Probe::probe` of symphonia's default probe on the in-memory source, with the
/// extension as a hint (which this version of the probe does not consult); an
/// error is converted to its text. Nothing is stated of the reader it returns.
#[verifier::external_body]
fn probe_container(source: &[u8], extension: &str) -> (r: Result<AudioContainer, String>) {
    let stream = symphonia::core::io::MediaSourceStream::new(Box::new(std::io::Cursor::new(source.to_vec())), Default::default());
    let mut hint = symphonia::core::formats::probe::Hint::new();
    hint.with_extension(extension);
    let probed = symphonia::default::get_probe().probe(&hint, stream, symphonia::core::formats::FormatOptions::default(), symphonia::core::meta::MetadataOptions::default());
    probed.map(|reader| AudioContainer { reader }).map_err(|error| error.to_string())
}

/// `FormatReader::default_track` for audio: the track's id and, when its codec
/// parameters are audio parameters, a copy of them. Nothing is stated of which track
/// it is.
#[verifier::external_body]
fn default_audio_track(container: &AudioContainer) -> (r: Option<(u32, Option<symphonia::core::codecs::audio::AudioCodecParameters>)>) {
    container.reader.default_track(symphonia::core::formats::TrackType::Audio).map(
        |track| (track.id, track.codec_params.as_ref().and_then(|params| params.audio()).cloned()),
    )
}

/// The `sample_rate` field of audio codec parameters, and the `count` of their
/// `channels` field. Nothing is stated of their values.
#[verifier::external_body]
fn declared_rate_and_channels(params: &symphonia::core::codecs::audio::AudioCodecParameters) -> (r: (Option<u32>, Option<usize>)) {
    (params.sample_rate, params.channels.as_ref().map(|channels| channels.count()))
}

/// `CodecRegistry::make_audio_decoder` of symphonia's default registry with default
/// options; an error is converted to its text. Nothing is stated of the decoder.
#[verifier::external_body]
fn make_track_decoder(params: &symphonia::core::codecs::audio::AudioCodecParameters) -> (r: Result<AudioTrackDecoder, String>) {
    let made = symphonia::default::get_codecs().make_audio_decoder(params, &symphonia::core::codecs::audio::AudioDecoderOptions::default());
    made.map(|decoder| AudioTrackDecoder { decoder }).map_err(|error| error.to_string())
}

/// `FormatReader::next_packet`: the next packet, None at the end of the stream, or
/// the text of an error. Nothing is stated of the packet.
#[verifier::external_body]
fn next_packet(container: &mut AudioContainer) -> (r: Result<Option<symphonia::core::packet::Packet>, String>) {
    container.reader.next_packet().map_err(|error| error.to_string())
}

/// The `track_id` field of a packet.
#[verifier::external_body]
fn packet_track_id(packet: &symphonia::core::packet::Packet) -> (id: u32) {
    packet.track_id
}

/// `AudioDecoder::decode` of a packet, with the decoded buffer's sample rate, its
/// channel count, and its frames copied into `bytes` by
/// `copy_bytes_to_vec_interleaved_as::<i16>`, which resizes `bytes` to exactly the
/// decoded frames: two bytes for each sample of each plane. An error is converted
/// to its text. A decoded buffer has one plane for each of its channels, so the
/// bytes are whole frames: two bytes for each channel of each frame. The lossy
/// decoders compute with the platform's floating-point functions, so nothing more
/// is stated of the decoded values.
#[verifier::external_body]
fn decode_packet(decoder: &mut AudioTrackDecoder, packet: &symphonia::core::packet::Packet, bytes: &mut Vec<u8>) -> (r: Result<(u32, usize), String>)
    ensures
        r matches Ok((rate, channels)) ==> holds_whole_frames(final(bytes)@.len() as int, channels as int),
{
    match decoder.decoder.decode(packet) {
        Ok(decoded) => {
            decoded.copy_bytes_to_vec_interleaved_as::<i16>(bytes);
            Ok((decoded.spec().rate(), decoded.spec().channels().count()))
        },
        Err(error) => Err(error.to_string()),
    }
}

/// `len` bytes are whole frames of 16-bit samples for `channels` channels: a
/// multiple of two bytes per channel, and no bytes at all without channels.
pub open spec fn holds_whole_frames(len: int, channels: int) -> bool {
    if channels == 0 {
        len == 0
    } else {
        len % (2 * channels) == 0
    }
}

/// The decimal text of `n`.
fn count_text(n: usize) -> (text: String)
    ensures
        text@ == decimal_text(n as nat),
{
    decimal_text_of(n as u64)
}

/// `e` reports an audio decoding failure of the source named `input`.
pub open spec fn is_audio_decode_error(e: DecayError, input: Seq<char>) -> bool {
    e matches DecayError::AudioDecode { context } && exists|message: Seq<char>|
        #[trigger] decode_context("audio"@, input, message) == context@
}

/// Builds the error that reports an audio decoding failure of `input`.
fn audio_error(input: &str, message: &str) -> (e: DecayError)
    ensures
        e matches DecayError::AudioDecode { context } && context@ == decode_context(
            "audio"@,
            input@,
            message@,
        ),
{
    DecayError::AudioDecode { context: make_decode_context("audio", input, message) }
}

/// The decoded audio gathered so far: the sample rate and channel count, zero
/// while unknown, and the interleaved 16-bit samples of every packet decoded.
pub struct AudioAssembly {
    pub sample_rate: u32,
    pub channels: usize,
    pub payload: Vec<u8>,
}

/// Starts gathering decoded audio with the rate and channel count that the track
/// declares, zero for what it leaves out.
pub fn start_audio_assembly(declared_rate: Option<u32>, declared_channels: Option<usize>) -> (a:
    AudioAssembly)
    ensures
        a.sample_rate == match declared_rate {
            Some(rate) => rate,
            None => 0,
        },
        a.channels == match declared_channels {
            Some(count) => count,
            None => 0,
        },
        a.payload@ == Seq::<u8>::empty(),
{
    let sample_rate: u32 = match declared_rate {
        Some(rate) => rate,
        None => 0,
    };
    let channels: usize = match declared_channels {
        Some(count) => count,
        None => 0,
    };
    AudioAssembly { sample_rate, channels, payload: Vec::new() }
}

/// Adds one decoded packet: its rate and channel count fill in what is still
/// unknown, and its samples are appended after those before.
pub fn add_decoded_packet(a: &mut AudioAssembly, rate: u32, channels: usize, bytes: &[u8])
    ensures
        final(a).sample_rate == if old(a).sample_rate == 0 {
            rate
        } else {
            old(a).sample_rate
        },
        final(a).channels == if old(a).channels == 0 {
            channels
        } else {
            old(a).channels
        },
        final(a).payload@ == old(a).payload@ + bytes@,
{
    if a.sample_rate == 0 {
        a.sample_rate = rate;
    }
    if a.channels == 0 {
        a.channels = channels;
    }
    a.payload.extend_from_slice(bytes);
    assert(a.payload@ =~= old(a).payload@ + bytes@);
}

/// The assembly is left as it was.
pub open spec fn assembly_kept(before: AudioAssembly, after: AudioAssembly) -> bool {
    &&& after.sample_rate == before.sample_rate
    &&& after.channels == before.channels
    &&& after.payload@ == before.payload@
}

/// The assembly after a decoded packet with the given rate, channel count and bytes
/// is added, as [`add_decoded_packet`] adds it.
pub open spec fn assembly_added(
    before: AudioAssembly,
    after: AudioAssembly,
    rate: u32,
    channels: usize,
    bytes: Seq<u8>,
) -> bool {
    &&& after.sample_rate == if before.sample_rate == 0 {
        rate
    } else {
        before.sample_rate
    }
    &&& after.channels == if before.channels == 0 {
        channels
    } else {
        before.channels
    }
    &&& after.payload@ == before.payload@ + bytes
}

/// Why a packet of the chosen track cannot be added, if it cannot: it was not
/// decoded, its decoding failed with a message, or it has a channel count other
/// than the one already known.
pub open spec fn audio_packet_fault(known_channels: usize, decoded: Option<Result<(u32, usize), String>>) -> Option<
    Seq<char>,
> {
    match decoded {
        None => Some("a packet of the audio track was not decoded"@),
        Some(Err(message)) => Some(message@),
        Some(Ok((_, channels))) => if known_channels != 0 && channels != known_channels {
            Some("a decoded packet's channel count differs from the track's"@)
        } else {
            None
        },
    }
}

/// Takes one packet read from the container of the source named `input`.
///
/// A packet of a track other than the chosen one is skipped. A packet of the chosen
/// track is added with its decoded rate, channel count and bytes, unless it was not
/// decoded, its decoding failed, or its channel count differs from the one already
/// known; then decoding ends with that refusal and nothing is added.
pub fn take_audio_packet(
    a: &mut AudioAssembly,
    chosen_track: u32,
    packet_track: u32,
    decoded: Option<Result<(u32, usize), String>>,
    bytes: &[u8],
    input: &str,
) -> (r: Result<(), DecayError>)
    ensures
        packet_track != chosen_track ==> r is Ok && assembly_kept(*old(a), *final(a)),
        packet_track == chosen_track ==> match audio_packet_fault(old(a).channels, decoded) {
            Some(message) => r matches Err(DecayError::AudioDecode { context }) && context@
                == decode_context("audio"@, input@, message) && assembly_kept(*old(a), *final(a)),
            None => r is Ok && (decoded matches Some(Ok((rate, channels))) && assembly_added(
                *old(a),
                *final(a),
                rate,
                channels,
                bytes@,
            )),
        },
{
    if packet_track != chosen_track {
        return Ok(());
    }
    match decoded {
        None => Err(audio_error(input, "a packet of the audio track was not decoded")),
        Some(Err(message)) => Err(audio_error(input, message.as_str())),
        Some(Ok((rate, channels))) => {
            if a.channels != 0 && channels != a.channels {
                return Err(
                    audio_error(input, "a decoded packet's channel count differs from the track's"),
                );
            }
            add_decoded_packet(a, rate, channels, bytes);
            Ok(())
        },
    }
}

/// What an outside step of audio decoding returned for the source named `input`:
/// its value, or the refusal that carries its message.
pub fn refused_audio<T>(outcome: Result<T, String>, input: &str) -> (r: Result<T, DecayError>)
    ensures
        match outcome {
            Ok(value) => r matches Ok(v) && v == value,
            Err(message) => r matches Err(DecayError::AudioDecode { context }) && context@
                == decode_context("audio"@, input@, message@),
        },
{
    match outcome {
        Ok(value) => Ok(value),
        Err(message) => Err(audio_error(input, message.as_str())),
    }
}

/// The track to decode of the source named `input`, from what the container
/// reports as its default audio track: its id and audio parameters, or the refusal
/// when there is no such track or it has no audio parameters.
pub fn audio_track_choice(
    track: Option<(u32, Option<symphonia::core::codecs::audio::AudioCodecParameters>)>,
    input: &str,
) -> (r: Result<(u32, symphonia::core::codecs::audio::AudioCodecParameters), DecayError>)
    ensures
        match track {
            None => r matches Err(DecayError::AudioDecode { context }) && context@
                == decode_context("audio"@, input@, "no audio track found"@),
            Some((_, None)) => r matches Err(DecayError::AudioDecode { context }) && context@
                == decode_context("audio"@, input@, "track has no audio parameters"@),
            Some((id, Some(params))) => r matches Ok((i, p)) && i == id && p == params,
        },
{
    match track {
        None => Err(audio_error(input, "no audio track found")),
        Some((_, None)) => Err(audio_error(input, "track has no audio parameters")),
        Some((id, Some(params))) => Ok((id, params)),
    }
}

/// A sum of two multiples of `m` is a multiple of `m`.
proof fn lemma_multiples_add(x: int, y: int, m: int)
    requires
        m > 0,
        x % m == 0,
        y % m == 0,
    ensures
        (x + y) % m == 0,
{
    vstd::arithmetic::div_mod::lemma_add_mod_noop(x, y, m);
    assert(0int % m == 0) by (nonlinear_arith)
        requires
            m > 0,
    ;
}

/// Why gathered audio cannot be encoded, if it cannot: no rate or channel count,
/// no samples, or more channels than the header holds.
pub open spec fn audio_assembly_fault(sample_rate: u32, channels: usize, payload_len: nat) -> Option<
    Seq<char>,
> {
    if sample_rate == 0 || channels == 0 {
        Some("missing sample rate or channel count"@)
    } else if payload_len == 0 {
        Some("no audio samples decoded"@)
    } else if channels > 255 {
        Some(decimal_text(channels as nat) + " channels exceeds the 255 the header holds"@)
    } else {
        None
    }
}

/// Finishes gathering decoded audio from the source named `input`: the rate, the
/// channel count and the samples, or the refusal that says what is missing.
pub fn finish_audio_assembly(a: AudioAssembly, input: &str) -> (r: Result<(u32, u8, Vec<u8>), DecayError>)
    ensures
        match audio_assembly_fault(a.sample_rate, a.channels, a.payload@.len()) {
            None => r matches Ok((rate, channels, payload)) && rate == a.sample_rate && channels
                == a.channels && payload@ == a.payload@,
            Some(message) => r matches Err(DecayError::AudioDecode { context }) && context@
                == decode_context("audio"@, input@, message),
        },
{
    if a.sample_rate == 0 || a.channels == 0 {
        return Err(audio_error(input, "missing sample rate or channel count"));
    }
    if a.payload.len() == 0 {
        return Err(audio_error(input, "no audio samples decoded"));
    }
    if a.channels > 255 {
        let mut message = count_text(a.channels);
        message.append(" channels exceeds the 255 the header holds");
        return Err(audio_error(input, message.as_str()));
    }
    Ok((a.sample_rate, a.channels as u8, a.payload))
}

/// Decodes a source audio file into its playback parameters and a raw PCM payload.
///
/// symphonia probes the container and decodes the first audio track to interleaved
/// signed 16-bit little-endian samples, the samples of each packet of that track
/// appended in order; packets of other tracks are skipped. The sample rate and the
/// channel count come from the track's parameters, or when those lack them from the
/// first decoded packet. A packet that cannot be decoded ends decoding with an error
/// rather than being skipped, so a truncated clip is never encoded as whole.
/// `input` names the source; its extension is a hint to the probe. What symphonia
/// decodes is not stated (see [`decode_packet`]); [`audio_track_choice`],
/// [`take_audio_packet`] and [`finish_audio_assembly`] state exactly what is made
/// of it. A decoded packet always holds whole frames, and a packet whose channel
/// count differs from the track's is refused, so the payload is whole frames of
/// the recorded channel count. Appending such a packet, as a plain concatenation
/// would, leaves samples that the header's channel count reads as the wrong
/// channels and a payload that may not be whole frames, which playback then
/// refuses; refusing it here keeps every encoded file playable as its header says.
pub fn decode_audio(source_bytes: &[u8], input: &str) -> (r: Result<(u32, u8, Vec<u8>), DecayError>)
    ensures
        r matches Ok((sample_rate, channels, payload)) ==> sample_rate != 0 && channels != 0
            && payload@.len() > 0 && (payload@.len() as int) % (2 * channels as int) == 0,
        r matches Err(e) ==> is_audio_decode_error(e, input@),
        r matches Ok((sample_rate, channels, payload)) ==> exists|packets: Seq<Seq<u8>>|
            #[trigger] packets.flatten() == payload@ && forall|k: int|
                0 <= k < packets.len() ==> holds_whole_frames(
                    #[trigger] packets[k].len() as int,
                    channels as int,
                ),
{
    let extension = extension_of(input);
    let mut container = match refused_audio(probe_container(source_bytes, extension.as_str()), input) {
        Ok(container) => container,
        Err(e) => return Err(e),
    };
    let (track_id, params) = match audio_track_choice(default_audio_track(&container), input) {
        Ok(track) => track,
        Err(e) => return Err(e),
    };
    let mut decoder = match refused_audio(make_track_decoder(&params), input) {
        Ok(decoder) => decoder,
        Err(e) => return Err(e),
    };
    let (declared_rate, declared_channels) = declared_rate_and_channels(&params);
    let mut assembly = start_audio_assembly(declared_rate, declared_channels);
    let mut packet_bytes: Vec<u8> = Vec::new();
    // Packets are counted in a u64; a reader could not hand out that many
    // before the count ran out, so the limit is a machine limit only.
    let mut packets_read: u64 = 0;
    // The bytes of each packet added so far, in the order they were added.
    let ghost mut added: Seq<Seq<u8>> = Seq::empty();
    assert(added.flatten() =~= assembly.payload@);
    loop
        invariant
            holds_whole_frames(assembly.payload@.len() as int, assembly.channels as int),
            added.flatten() == assembly.payload@,
            forall|k: int|
                0 <= k < added.len() ==> holds_whole_frames(
                    #[trigger] added[k].len() as int,
                    assembly.channels as int,
                ),
        decreases u64::MAX - packets_read,
    {
        let packet = match refused_audio(next_packet(&mut container), input) {
            Ok(Some(packet)) => packet,
            Ok(None) => break,
            Err(e) => return Err(e),
        };
        if packets_read == u64::MAX {
            return Err(audio_error(input, "packet count exceeds what a u64 holds"));
        }
        packets_read = packets_read + 1;
        let packet_track = packet_track_id(&packet);
        let decoded = if packet_track == track_id {
            Some(decode_packet(&mut decoder, &packet, &mut packet_bytes))
        } else {
            None
        };
        let ghost before = assembly;
        match take_audio_packet(
            &mut assembly,
            track_id,
            packet_track,
            decoded,
            packet_bytes.as_slice(),
            input,
        ) {
            Ok(()) => {},
            Err(e) => return Err(e),
        }
        proof {
            if packet_track == track_id && before.channels != 0 {
                lemma_multiples_add(
                    before.payload@.len() as int,
                    packet_bytes@.len() as int,
                    2 * before.channels as int,
                );
            }
            if packet_track == track_id {
                let previous = added;
                added = previous.push(packet_bytes@);
                previous.lemma_flatten_push(packet_bytes@);
                assert forall|k: int| 0 <= k < added.len() implies holds_whole_frames(
                    #[trigger] added[k].len() as int,
                    assembly.channels as int,
                ) by {
                    if k < previous.len() {
                        assert(added[k] == previous[k]);
                        assert(holds_whole_frames(previous[k].len() as int, before.channels as int));
                        if before.channels == 0 && assembly.channels != 0 {
                            assert(0int % (2 * assembly.channels as int) == 0) by (nonlinear_arith)
                                requires
                                    assembly.channels > 0,
                            ;
                        }
                    }
                }
            }
        }
    }
    finish_audio_assembly(assembly, input)
}

/// The header and payload of an encoded image: its dimensions and its pixels.
pub fn image_encoding(width: u32, height: u32, pixels: Vec<u8>) -> (r: (Header, Vec<u8>))
    ensures
        r.0 == (Header {
            file_type: FileType::Image,
            metadata: Metadata::Image(ImageDimensions { width, height }),
        }),
        r.1@ == pixels@,
{
    (Header::for_image(width, height), pixels)
}

/// The header and payload of encoded audio: its rate, its channel count, 16 bits
/// per sample, and its samples.
pub fn audio_encoding(sample_rate: u32, channels: u8, samples: Vec<u8>) -> (r: (Header, Vec<u8>))
    ensures
        r.0 == (Header {
            file_type: FileType::Audio,
            metadata: Metadata::Audio(
                AudioSpec { sample_rate, channels, bits_per_sample: AUDIO_BITS_PER_SAMPLE },
            ),
        }),
        r.1@ == samples@,
{
    (Header::for_audio(sample_rate, channels, AUDIO_BITS_PER_SAMPLE), samples)
}

/// What decoding the image source named `input` may give: pixels of four bytes for
/// each pixel of the dimensions, or a refusal to decode it.
pub open spec fn image_decode_outcome(input: Seq<char>, d: Result<(u32, u32, Vec<u8>), DecayError>) -> bool {
    match d {
        Ok((width, height, pixels)) => pixels@.len() == 4 * width * height,
        Err(e) => is_image_decode_error(e, input),
    }
}

/// What decoding the audio source named `input` may give: a non-zero rate and
/// channel count and a non-empty payload of whole frames, or a refusal to decode it.
pub open spec fn audio_decode_outcome(input: Seq<char>, d: Result<(u32, u8, Vec<u8>), DecayError>) -> bool {
    match d {
        Ok((sample_rate, channels, payload)) => sample_rate != 0 && channels != 0
            && payload@.len() > 0 && (payload@.len() as int) % (2 * channels as int) == 0,
        Err(e) => is_audio_decode_error(e, input),
    }
}

/// `r` is the encoding of the decoded image `decoded`: a header recording exactly
/// its width and height, and exactly its pixels; or its refusal.
pub open spec fn image_encoded_as(
    decoded: Result<(u32, u32, Vec<u8>), DecayError>,
    r: Result<(Header, Vec<u8>), DecayError>,
) -> bool {
    match decoded {
        Ok((width, height, pixels)) => r matches Ok((header, payload)) && header == (Header {
            file_type: FileType::Image,
            metadata: Metadata::Image(ImageDimensions { width, height }),
        }) && payload@ == pixels@,
        Err(e) => r matches Err(e2) && e2 == e,
    }
}

/// `r` is the encoding of the decoded audio `decoded`: a header recording exactly
/// its sample rate and channel count with 16 bits per sample, and exactly its
/// samples; or its refusal.
pub open spec fn audio_encoded_as(
    decoded: Result<(u32, u8, Vec<u8>), DecayError>,
    r: Result<(Header, Vec<u8>), DecayError>,
) -> bool {
    match decoded {
        Ok((sample_rate, channels, samples)) => r matches Ok((header, payload)) && header == (
        Header {
            file_type: FileType::Audio,
            metadata: Metadata::Audio(
                AudioSpec { sample_rate, channels, bits_per_sample: AUDIO_BITS_PER_SAMPLE },
            ),
        }) && payload@ == samples@,
        Err(e) => r matches Err(e2) && e2 == e,
    }
}

/// The header and payload of a decoded image, its dimensions recorded in the
/// header; or the refusal that stopped its decoding, passed on.
pub fn encoded_image(decoded: Result<(u32, u32, Vec<u8>), DecayError>) -> (r: Result<
    (Header, Vec<u8>),
    DecayError,
>)
    ensures
        match decoded {
            Ok((width, height, pixels)) => r matches Ok((header, payload)) && header == (Header {
                file_type: FileType::Image,
                metadata: Metadata::Image(ImageDimensions { width, height }),
            }) && payload@ == pixels@,
            Err(e) => r matches Err(e2) && e2 == e,
        },
        image_encoded_as(decoded, r),
{
    match decoded {
        Ok((width, height, pixels)) => Ok(image_encoding(width, height, pixels)),
        Err(e) => Err(e),
    }
}

/// The header and payload of decoded audio, its rate and channel count recorded in
/// the header with 16 bits per sample; or the refusal that stopped its decoding,
/// passed on.
pub fn encoded_audio(decoded: Result<(u32, u8, Vec<u8>), DecayError>) -> (r: Result<
    (Header, Vec<u8>),
    DecayError,
>)
    ensures
        match decoded {
            Ok((sample_rate, channels, samples)) => r matches Ok((header, payload)) && header == (
            Header {
                file_type: FileType::Audio,
                metadata: Metadata::Audio(
                    AudioSpec { sample_rate, channels, bits_per_sample: AUDIO_BITS_PER_SAMPLE },
                ),
            }) && payload@ == samples@,
            Err(e) => r matches Err(e2) && e2 == e,
        },
        audio_encoded_as(decoded, r),
{
    match decoded {
        Ok((sample_rate, channels, samples)) => Ok(audio_encoding(sample_rate, channels, samples)),
        Err(e) => Err(e),
    }
}

/// `r` is what encoding `source`, named `source_path`, gives for a payload of type
/// `file_type`: a text source is kept exactly when it is valid UTF-8; an image
/// source is reduced to its RGBA pixels, four bytes for each pixel the header
/// records; an audio source is decoded to whole frames of 16-bit PCM with a
/// non-zero sample rate and channel count. Which pixels and samples come out is
/// what [`encoded_image`] and [`encoded_audio`] make of the decoders' results.
pub open spec fn encoding_outcome(
    file_type: FileType,
    source: Seq<u8>,
    source_path: Seq<char>,
    r: Result<(Header, Vec<u8>), DecayError>,
) -> bool {
    &&& r matches Ok((header, _)) ==> header.wf() && header.file_type == file_type
    &&& match file_type {
        FileType::Text => if vstd::utf8::valid_utf8(source) {
            r matches Ok((header, payload)) && header == (Header {
                file_type: FileType::Text,
                metadata: Metadata::Text,
            }) && payload@ == source
        } else {
            r matches Err(DecayError::InvalidUtf8)
        },
        FileType::Image => {
            &&& r matches Ok((header, payload)) ==> header.metadata matches Metadata::Image(d)
                && payload@.len() == 4 * d.width * d.height
            &&& r matches Err(e) ==> is_image_decode_error(e, source_path)
        },
        FileType::Audio => {
            &&& r matches Ok((header, payload)) ==> header.metadata matches Metadata::Audio(spec)
                && spec.bits_per_sample == AUDIO_BITS_PER_SAMPLE && spec.sample_rate != 0
                && spec.channels != 0 && payload@.len() > 0 && (payload@.len() as int) % (2
                * spec.channels as int) == 0
            &&& r matches Err(e) ==> is_audio_decode_error(e, source_path)
        },
    }
}

/// Turns already-read source bytes into a header and a payload for the given
/// payload type. `source_path` names the source in a refusal, and its extension is
/// a hint to the audio probe. Nothing is corrupted: the result is clean.
pub fn build_encoding(file_type: FileType, source_bytes: Vec<u8>, source_path: &str) -> (r: Result<
    (Header, Vec<u8>),
    DecayError,
>)
    ensures
        encoding_outcome(file_type, source_bytes@, source_path@, r),
        file_type == FileType::Image ==> exists|d: Result<(u32, u32, Vec<u8>), DecayError>|
            image_decode_outcome(source_path@, d) && #[trigger] image_encoded_as(d, r),
        file_type == FileType::Audio ==> exists|d: Result<(u32, u8, Vec<u8>), DecayError>|
            audio_decode_outcome(source_path@, d) && #[trigger] audio_encoded_as(d, r),
{
    match file_type {
        FileType::Image => {
            let decoded = decode_image(source_bytes.as_slice(), source_path);
            let ghost d = decoded;
            let r = encoded_image(decoded);
            assert(image_decode_outcome(source_path@, d) && image_encoded_as(d, r));
            r
        },
        FileType::Text => {
            let payload = text_payload(source_bytes)?;
            Ok((Header::for_text(), payload))
        },
        FileType::Audio => {
            let decoded = decode_audio(source_bytes.as_slice(), source_path);
            let ghost d = decoded;
            let r = encoded_audio(decoded);
            assert(audio_decode_outcome(source_path@, d) && audio_encoded_as(d, r));
            r
        },
    }
}

/// `r` is what encoding `source` for the output name `output` gives: the output
/// name's refusal when it does not fit the filename convention, else the encoding
/// of the source for the payload type the name gives.
pub open spec fn encode_outcome(
    source: Seq<u8>,
    output: Seq<char>,
    r: Result<(Header, Vec<u8>), DecayError>,
) -> bool {
    match spec_parse_extension(path_extension(output)) {
        Err(fault) => r matches Err(e) && reports_name_fault(e, fault, path_extension(output), output),
        Ok((file_type, _)) => encoding_outcome(file_type, source, output, r),
    }
}

/// Encodes in-memory source bytes for a decayfmt file named `output`: the header
/// and the payload to write there, header first.
///
/// The payload type comes from the output name, parsed by the same routine open
/// uses, so a name that could never be opened is refused before anything is
/// decoded. x is not stored; it lives only in the filename.
pub fn encode_bytes(source: &[u8], output: &str) -> (r: Result<(Header, Vec<u8>), DecayError>)
    ensures
        encode_outcome(source@, output@, r),
        spec_parse_extension(path_extension(output@)) matches Ok((FileType::Image, _)) ==> exists|
            d: Result<(u32, u32, Vec<u8>), DecayError>,
        | image_decode_outcome(output@, d) && #[trigger] image_encoded_as(d, r),
        spec_parse_extension(path_extension(output@)) matches Ok((FileType::Audio, _)) ==> exists|
            d: Result<(u32, u8, Vec<u8>), DecayError>,
        | audio_decode_outcome(output@, d) && #[trigger] audio_encoded_as(d, r),
{
    let (file_type, _x) = parse_filename(output)?;
    build_encoding(file_type, vstd::slice::slice_to_vec(source), output)
}

/// A file written from a successful encoding, the header's bytes followed by the
/// payload, reads back as the header the encoding produced, and that header's
/// payload type is the one the output name gives: a freshly encoded file is never
/// refused by an open under its own name.
pub proof fn lemma_encoded_file_opens(
    source: Seq<u8>,
    output: Seq<char>,
    header: Header,
    payload: Vec<u8>,
)
    requires
        encode_outcome(source, output, Ok::<(Header, Vec<u8>), DecayError>((header, payload))),
    ensures
        spec_decode_header(spec_header_bytes(header) + payload@) == Some(header),
        spec_parse_extension(path_extension(output)) matches Ok((file_type, _)) && file_type
            == header.file_type,
{
    let bytes = spec_header_bytes(header);
    let file = bytes + payload@;
    lemma_header_round_trip(header);
    lemma_header_layout(header);
    assert(file.subrange(0, 14) =~= bytes.subrange(0, 14));
    lemma_read_ignores_reserved_and_payload(bytes, file);
}

/// Decoded audio encodes to a file that reads back as exactly what was decoded:
/// its header gives the decoded sample rate and channel count at 16 bits per
/// sample, and the bytes after the header are exactly the decoded samples.
pub proof fn lemma_encoded_audio_reads_back(
    decoded: Result<(u32, u8, Vec<u8>), DecayError>,
    r: Result<(Header, Vec<u8>), DecayError>,
)
    requires
        audio_encoded_as(decoded, r),
        decoded is Ok,
    ensures
        decoded matches Ok((sample_rate, channels, samples)) && r matches Ok((header, payload))
            && spec_decode_header(spec_header_bytes(header) + payload@) matches Some(read)
            && read.metadata == Metadata::Audio(
            AudioSpec { sample_rate, channels, bits_per_sample: AUDIO_BITS_PER_SAMPLE },
        ) && (spec_header_bytes(header) + payload@).subrange(
            HEADER_SIZE as int,
            HEADER_SIZE + samples@.len(),
        ) == samples@,
{
    let (header, payload) = r.unwrap();
    let bytes = spec_header_bytes(header);
    let file = bytes + payload@;
    lemma_header_round_trip(header);
    lemma_header_layout(header);
    assert(file.subrange(0, 14) =~= bytes.subrange(0, 14));
    lemma_read_ignores_reserved_and_payload(bytes, file);
    assert(file.subrange(HEADER_SIZE as int, HEADER_SIZE + payload@.len()) =~= payload@);
}

/// A decoded image encodes to a file that reads back as exactly what was decoded:
/// its header gives the decoded width and height, in that order, and the bytes
/// after the header are exactly the decoded pixels, alpha bytes included.
pub proof fn lemma_encoded_image_reads_back(
    decoded: Result<(u32, u32, Vec<u8>), DecayError>,
    r: Result<(Header, Vec<u8>), DecayError>,
)
    requires
        image_encoded_as(decoded, r),
        decoded is Ok,
    ensures
        decoded matches Ok((width, height, pixels)) && r matches Ok((header, payload))
            && spec_decode_header(spec_header_bytes(header) + payload@) matches Some(read)
            && read.metadata == Metadata::Image(ImageDimensions { width, height }) && (
        spec_header_bytes(header) + payload@).subrange(
            HEADER_SIZE as int,
            HEADER_SIZE + pixels@.len(),
        ) == pixels@,
{
    let (header, payload) = r.unwrap();
    let bytes = spec_header_bytes(header);
    let file = bytes + payload@;
    lemma_header_round_trip(header);
    lemma_header_layout(header);
    assert(file.subrange(0, 14) =~= bytes.subrange(0, 14));
    lemma_read_ignores_reserved_and_payload(bytes, file);
    assert(file.subrange(HEADER_SIZE as int, HEADER_SIZE + payload@.len()) =~= payload@);
}

/// Packets that each hold whole frames join into whole frames: the payload of
/// decoded audio, the decoded packets joined in order, is a whole number of frames
/// of its channel count.
pub proof fn lemma_joined_packets_are_whole_frames(packets: Seq<Seq<u8>>, channels: int)
    requires
        channels > 0,
        forall|k: int|
            0 <= k < packets.len() ==> holds_whole_frames(#[trigger] packets[k].len() as int, channels),
    ensures
        (packets.flatten().len() as int) % (2 * channels) == 0,
    decreases packets.len(),
{
    if packets.len() == 0 {
        assert(packets.flatten().len() == 0);
        assert(0int % (2 * channels) == 0) by (nonlinear_arith)
            requires
                channels > 0,
        ;
    } else {
        let rest = packets.drop_first();
        assert forall|k: int| 0 <= k < rest.len() implies holds_whole_frames(
            #[trigger] rest[k].len() as int,
            channels,
        ) by {
            assert(rest[k] == packets[k + 1]);
        }
        lemma_joined_packets_are_whole_frames(rest, channels);
        assert(holds_whole_frames(packets[0].len() as int, channels));
        lemma_multiples_add(
            packets[0].len() as int,
            rest.flatten().len() as int,
            2 * channels,
        );
    }
}

} // verus!
