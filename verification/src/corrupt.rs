//! Corruption of image, text and audio payloads.
//!
//! These functions work on byte slices only; reading a payload and writing it back
//! is the caller's business. Every random draw comes from a [`DrawRng`]: in use,
//! a generator seeded from operating system entropy, never a fixed seed, so a
//! corruption sequence cannot be replayed to undo the decay. Given the draws, what
//! happens to each byte is fixed, and the contracts below say exactly what.

use crate::error::DecayError;
use crate::format::FileType;
use vstd::prelude::*;

verus! {

/// Number of bytes per pixel in an RGBA image payload.
pub const RGBA_BYTES_PER_PIXEL: usize = 4;

/// Index of the alpha channel within an RGBA pixel. This byte is never corrupted.
pub const ALPHA_INDEX: usize = 3;

/// Lowest printable ASCII byte used as a text replacement (space).
pub const PRINTABLE_ASCII_LOW: u8 = 0x20;

/// Highest printable ASCII byte used as a text replacement (tilde).
pub const PRINTABLE_ASCII_HIGH: u8 = 0x7E;

/// Number of printable ASCII bytes in the text replacement range.
pub const PRINTABLE_ASCII_COUNT: u16 = 95;

/// Largest draw accepted for the rejection-free text replacement mapping: 689 full
/// copies of 0..95 fit below this value, so a draw below it maps to a uniformly
/// distributed replacement. Draws at or above it fall back to a direct uniform draw.
pub const TEXT_REPLACEMENT_ACCEPT_MAX: u16 = 65455;

/// Bytes of payload processed per pool fill. Two draws per byte covers the worst
/// case, every byte corrupted.
pub const CHUNK_BYTES: usize = 65536;

/// Payload length below which corrupting regions in parallel is not worth the
/// coordination.
pub const PAR_MIN_BYTES: usize = 1048576;

/// Size of the contiguous region handed to each parallel task. A multiple of 4, so
/// image regions start on pixel boundaries and alpha stays at index 3.
pub const REGION_BYTES: usize = 4194304;

/// The standard generator of `rand`.
#[verifier::external_type_specification]
#[verifier::external_body]
pub struct ExStdRng(rand::rngs::StdRng);

/// Where corruption takes its random draws from: in use, a standard generator
/// seeded from operating system entropy; a generator with a chosen seed replays
/// the same draws, which only a test has any use for.
pub enum DrawRng {
    Os(rand::rngs::StdRng),
    Seeded(rand::rngs::StdRng),
}

/// `rand::Rng::fill` of a standard generator on the first `n` entries of the pool;
/// it writes nothing else.
#[verifier::external_body]
fn fill_from_std_rng(rng: &mut rand::rngs::StdRng, pool: &mut Vec<u16>, n: usize)
    requires
        n <= old(pool)@.len(),
    ensures
        final(pool)@.len() == old(pool)@.len(),
        forall|i: int| n <= i < old(pool)@.len() ==> final(pool)@[i] == old(pool)@[i],
{
    rand::Rng::fill(rng, &mut pool[..n])
}

/// `rand::Rng::gen_range` of a standard generator over 0x20..=0x7E, which returns a
/// value in that range.
#[verifier::external_body]
fn printable_from_std_rng(rng: &mut rand::rngs::StdRng) -> (b: u8)
    ensures
        is_printable(b),
{
    rand::Rng::gen_range(rng, PRINTABLE_ASCII_LOW..=PRINTABLE_ASCII_HIGH)
}

impl DrawRng {
    /// Fills `pool[0..n]` with draws; the rest of the pool is left as it was.
    pub fn fill_draws(&mut self, pool: &mut Vec<u16>, n: usize)
        requires
            n <= old(pool)@.len(),
        ensures
            final(pool)@.len() == old(pool)@.len(),
            forall|i: int| n <= i < old(pool)@.len() ==> final(pool)@[i] == old(pool)@[i],
    {
        match self {
            DrawRng::Os(rng) => fill_from_std_rng(rng, pool, n),
            DrawRng::Seeded(rng) => fill_from_std_rng(rng, pool, n),
        }
    }

    /// Draws a printable ASCII byte, 0x20 to 0x7E.
    pub fn draw_printable(&mut self) -> (b: u8)
        ensures
            is_printable(b),
    {
        match self {
            DrawRng::Os(rng) => printable_from_std_rng(rng),
            DrawRng::Seeded(rng) => printable_from_std_rng(rng),
        }
    }
}

/// `rand::SeedableRng::from_rng` of a standard generator on `rand::rngs::OsRng`:
/// the seed is filled by `OsRng::try_fill_bytes` from operating system entropy, and
/// its error, when the entropy source fails, is converted to its text. Nothing is
/// stated of the generator's state.
#[verifier::external_body]
fn std_rng_from_os() -> (r: Result<rand::rngs::StdRng, String>) {
    <rand::rngs::StdRng as rand::SeedableRng>::from_rng(rand::rngs::OsRng).map_err(|error| error.to_string())
}

/// The context of a failure to seed a generator: `corrupt: seed from operating
/// system entropy: <message>`.
pub open spec fn entropy_context(message: Seq<char>) -> Seq<char> {
    "corrupt: seed from operating system entropy: "@ + message
}

/// Turns what seeding from operating system entropy returned into a draw source,
/// or into the refusal that carries the entropy source's message.
pub fn rng_from_seeding(seeded: Result<rand::rngs::StdRng, String>) -> (r: Result<DrawRng, DecayError>)
    ensures
        match seeded {
            Ok(rng) => r matches Ok(DrawRng::Os(g)) && g == rng,
            Err(message) => r matches Err(DecayError::Entropy { context }) && context@
                == entropy_context(message@),
        },
{
    match seeded {
        Ok(rng) => Ok(DrawRng::Os(rng)),
        Err(message) => {
            let mut context = String::from_str("corrupt: seed from operating system entropy: ");
            context.append(message.as_str());
            Err(DecayError::Entropy { context })
        },
    }
}

/// `e` reports that no generator could be seeded from operating system entropy.
pub open spec fn is_entropy_error(e: DecayError) -> bool {
    e matches DecayError::Entropy { context } && exists|message: Seq<char>|
        #[trigger] entropy_context(message) == context@
}

/// A draw source on a standard generator freshly seeded from operating system
/// entropy, never one with a chosen seed; when the entropy source fails, the
/// refusal says so.
pub fn fresh_rng() -> (r: Result<DrawRng, DecayError>)
    ensures
        r matches Ok(rng) ==> rng is Os,
        r matches Err(e) ==> is_entropy_error(e),
{
    rng_from_seeding(std_rng_from_os())
}

/// The byte is printable ASCII, 0x20 to 0x7E.
pub open spec fn is_printable(b: u8) -> bool {
    PRINTABLE_ASCII_LOW <= b && b <= PRINTABLE_ASCII_HIGH
}

/// The length of the whole pixels at the start of a buffer of `n` bytes.
pub open spec fn whole_pixel_len(n: nat) -> nat {
    (n - n % 4) as nat
}

/// How many bytes of a payload of `len` bytes are eligible for corruption: every
/// byte of text and audio, the whole pixels of an image.
pub open spec fn spec_eligible_len(len: nat, file_type: FileType) -> nat {
    match file_type {
        FileType::Image => whole_pixel_len(len),
        _ => len,
    }
}

/// Where the draws for image byte `k` start: each colour channel consumes one draw
/// for the decision and one more when it is corrupted; alpha consumes none.
pub open spec fn image_draw_index(pool: Seq<u16>, threshold: u16, k: nat) -> nat
    decreases k,
{
    if k == 0 {
        0
    } else {
        let d = image_draw_index(pool, threshold, (k - 1) as nat);
        if (k - 1) % 4 == 3 {
            d
        } else if pool[d as int] < threshold {
            d + 2
        } else {
            d + 1
        }
    }
}

/// Image byte `i` after corruption with the given draws: a colour channel of a whole
/// pixel whose decision draw is below the threshold takes the low byte of the next
/// draw; every other byte keeps its value.
pub open spec fn image_byte(chunk: Seq<u8>, threshold: u16, pool: Seq<u16>, i: int) -> u8 {
    let d = image_draw_index(pool, threshold, i as nat);
    if i < whole_pixel_len(chunk.len()) && i % 4 != 3 && pool[d as int] < threshold {
        pool[d + 1int] as u8
    } else {
        chunk[i]
    }
}

/// An image chunk after corruption with the given draws.
pub open spec fn spec_image_chunk(chunk: Seq<u8>, threshold: u16, pool: Seq<u16>) -> Seq<u8> {
    Seq::new(chunk.len(), |i: int| image_byte(chunk, threshold, pool, i))
}

/// Where the draws for byte `k` of a text or audio chunk start: each byte consumes
/// one draw for the decision and one more when it is corrupted.
pub open spec fn byte_draw_index(pool: Seq<u16>, threshold: u16, k: nat) -> nat
    decreases k,
{
    if k == 0 {
        0
    } else {
        let d = byte_draw_index(pool, threshold, (k - 1) as nat);
        if pool[d as int] < threshold {
            d + 2
        } else {
            d + 1
        }
    }
}

/// The printable replacement a draw below [`TEXT_REPLACEMENT_ACCEPT_MAX`] maps to.
pub open spec fn mapped_replacement(r: u16) -> u8 {
    (PRINTABLE_ASCII_LOW + r % PRINTABLE_ASCII_COUNT) as u8
}

/// Text byte `i` went from `before` to `after` as the draws call for: a byte whose
/// decision draw is below the threshold is replaced, by the printable byte the next
/// draw maps to or, when that draw is too high, by a printable byte drawn directly;
/// every other byte keeps its value.
pub open spec fn text_byte_drawn(before: u8, after: u8, threshold: u16, pool: Seq<u16>, i: int) -> bool {
    let d = byte_draw_index(pool, threshold, i as nat);
    if pool[d as int] < threshold {
        if pool[d + 1int] < TEXT_REPLACEMENT_ACCEPT_MAX {
            after == mapped_replacement(pool[d + 1int])
        } else {
            is_printable(after)
        }
    } else {
        after == before
    }
}

/// Text byte `i` is selected and its replacement draw is too high for the mapping,
/// so its replacement is drawn directly from the generator.
pub open spec fn text_fallback_drawn(threshold: u16, pool: Seq<u16>, i: int) -> bool {
    let d = byte_draw_index(pool, threshold, i as nat);
    pool[d as int] < threshold && pool[d + 1int] >= TEXT_REPLACEMENT_ACCEPT_MAX
}

/// Audio byte `i` after corruption with the given draws: a byte whose decision draw
/// is below the threshold takes the low byte of the next draw; every other byte
/// keeps its value.
pub open spec fn audio_byte(chunk: Seq<u8>, threshold: u16, pool: Seq<u16>, i: int) -> u8 {
    let d = byte_draw_index(pool, threshold, i as nat);
    if pool[d as int] < threshold {
        pool[d + 1int] as u8
    } else {
        chunk[i]
    }
}

/// An audio chunk after corruption with the given draws.
pub open spec fn spec_audio_chunk(chunk: Seq<u8>, threshold: u16, pool: Seq<u16>) -> Seq<u8> {
    Seq::new(chunk.len(), |i: int| audio_byte(chunk, threshold, pool, i))
}

/// What corruption may do to byte `i` of a payload of the given type: text bytes
/// stay or become printable ASCII; image alpha bytes and the bytes after the last
/// whole pixel stay; audio bytes may take any value.
pub open spec fn byte_outcome(before: Seq<u8>, after: Seq<u8>, file_type: FileType, i: int) -> bool {
    match file_type {
        FileType::Text => after[i] == before[i] || is_printable(after[i]),
        FileType::Image => (i % 4 == 3 || i >= whole_pixel_len(before.len())) ==> after[i]
            == before[i],
        FileType::Audio => true,
    }
}

/// `after` is a possible result of corrupting `before` as a payload of the given type
/// with the given threshold: the length is kept, a zero threshold changes nothing,
/// and every byte satisfies [`byte_outcome`].
pub open spec fn corruption_outcome(
    before: Seq<u8>,
    after: Seq<u8>,
    file_type: FileType,
    threshold: u16,
) -> bool {
    &&& after.len() == before.len()
    &&& threshold == 0 ==> after == before
    &&& forall|i: int| 0 <= i < before.len() ==> #[trigger] byte_outcome(before, after, file_type, i)
}

/// A payload cut into consecutive regions, each a whole number of pixels long but
/// the last, and each corrupted on its own, is corrupted as a whole: the outcomes
/// of the regions, joined in order, are an outcome of the payload. This is what
/// lets regions be corrupted side by side on several threads.
pub proof fn lemma_regions_compose(
    regions_before: Seq<Seq<u8>>,
    regions_after: Seq<Seq<u8>>,
    file_type: FileType,
    threshold: u16,
)
    requires
        regions_after.len() == regions_before.len(),
        forall|k: int|
            0 <= k < regions_before.len() ==> corruption_outcome(
                #[trigger] regions_before[k],
                regions_after[k],
                file_type,
                threshold,
            ),
        forall|k: int| 0 <= k < regions_before.len() - 1 ==> #[trigger] regions_before[k].len() % 4 == 0,
    ensures
        corruption_outcome(regions_before.flatten(), regions_after.flatten(), file_type, threshold),
    decreases regions_before.len(),
{
    if regions_before.len() == 0 {
        assert(regions_before.flatten() =~= Seq::<u8>::empty());
        assert(regions_after.flatten() =~= Seq::<u8>::empty());
    } else {
        let rest_before = regions_before.drop_first();
        let rest_after = regions_after.drop_first();
        assert forall|k: int| 0 <= k < rest_before.len() implies corruption_outcome(
            #[trigger] rest_before[k],
            rest_after[k],
            file_type,
            threshold,
        ) by {
            assert(rest_before[k] == regions_before[k + 1]);
            assert(rest_after[k] == regions_after[k + 1]);
        }
        assert forall|k: int| 0 <= k < rest_before.len() - 1 implies #[trigger] rest_before[k].len()
            % 4 == 0 by {
            assert(rest_before[k] == regions_before[k + 1]);
        }
        lemma_regions_compose(rest_before, rest_after, file_type, threshold);
        assert(corruption_outcome(regions_before[0], regions_after[0], file_type, threshold));
        if regions_before.len() == 1 {
            assert(rest_before.flatten() =~= Seq::<u8>::empty());
            assert(rest_after.flatten() =~= Seq::<u8>::empty());
            assert(regions_before.flatten() =~= regions_before[0]);
            assert(regions_after.flatten() =~= regions_after[0]);
        } else {
            assert(regions_before[0].len() % 4 == 0);
            lemma_outcome_concat(
                regions_before[0],
                regions_after[0],
                rest_before.flatten(),
                rest_after.flatten(),
                file_type,
                threshold,
            );
        }
    }
}

/// Corrupts the R, G and B channels of an RGBA chunk, each independently, with
/// probability threshold / 65536. The alpha channel is never touched, nor are the
/// bytes after the last whole pixel. The low byte of a fresh draw is the replacement.
///
/// Draws are consumed from `pool` strictly left to right, one per channel for the
/// decision and one more only when the channel is corrupted.
pub fn corrupt_image_chunk(chunk: &mut [u8], threshold: u16, pool: &[u16])
    requires
        pool@.len() >= 2 * old(chunk)@.len(),
    ensures
        final(chunk)@ == spec_image_chunk(old(chunk)@, threshold, pool@),
{
    let n = chunk.len();
    let whole = n - n % 4;
    let mut draw: usize = 0;
    let mut i: usize = 0;
    while i < whole
        invariant
            n == chunk@.len() == old(chunk)@.len(),
            whole == whole_pixel_len(n as nat),
            pool@.len() >= 2 * n,
            i <= whole,
            draw == image_draw_index(pool@, threshold, i as nat),
            draw <= 2 * i,
            forall|j: int| 0 <= j < i ==> chunk@[j] == image_byte(old(chunk)@, threshold, pool@, j),
            forall|j: int| i <= j < n ==> chunk@[j] == old(chunk)@[j],
        decreases whole - i,
    {
        if i % 4 != 3 {
            if pool[draw] < threshold {
                draw = draw + 1;
                chunk[i] = pool[draw] as u8;
            }
            draw = draw + 1;
        }
        i = i + 1;
    }
    assert(chunk@ =~= spec_image_chunk(old(chunk)@, threshold, pool@));
}

/// Corrupts a text chunk by replacing bytes, each independently with probability
/// threshold / 65536, with a uniformly random printable ASCII byte.
///
/// Works on bytes, not characters, so it may break multi-byte UTF-8 sequences; the
/// display layer substitutes the replacement character for what is no longer valid.
pub fn corrupt_text_chunk(chunk: &mut [u8], threshold: u16, pool: &[u16], rng: &mut DrawRng)
    requires
        pool@.len() >= 2 * old(chunk)@.len(),
    ensures
        final(chunk)@.len() == old(chunk)@.len(),
        forall|i: int|
            0 <= i < old(chunk)@.len() ==> #[trigger] text_byte_drawn(
                old(chunk)@[i],
                final(chunk)@[i],
                threshold,
                pool@,
                i,
            ),
        (forall|i: int| 0 <= i < old(chunk)@.len() ==> !#[trigger] text_fallback_drawn(
            threshold,
            pool@,
            i,
        )) ==> *final(rng) == *old(rng),
{
    let n = chunk.len();
    let mut draw: usize = 0;
    let mut i: usize = 0;
    while i < n
        invariant
            n == chunk@.len() == old(chunk)@.len(),
            pool@.len() >= 2 * n,
            i <= n,
            draw == byte_draw_index(pool@, threshold, i as nat),
            draw <= 2 * i,
            (forall|j: int| 0 <= j < i ==> !#[trigger] text_fallback_drawn(threshold, pool@, j))
                ==> *rng == *old(rng),
            forall|j: int|
                0 <= j < i ==> #[trigger] text_byte_drawn(
                    old(chunk)@[j],
                    chunk@[j],
                    threshold,
                    pool@,
                    j,
                ),
            forall|j: int| i <= j < n ==> chunk@[j] == old(chunk)@[j],
        decreases n - i,
    {
        let ghost rng_before = *rng;
        if pool[draw] < threshold {
            draw = draw + 1;
            let r = pool[draw];
            let replacement = if r < TEXT_REPLACEMENT_ACCEPT_MAX {
                PRINTABLE_ASCII_LOW + (r % PRINTABLE_ASCII_COUNT) as u8
            } else {
                rng.draw_printable()
            };
            chunk[i] = replacement;
        }
        proof {
            if !text_fallback_drawn(threshold, pool@, i as int) {
                assert(*rng == rng_before);
            }
        }
        draw = draw + 1;
        i = i + 1;
    }
}

/// Corrupts an audio chunk: every byte of every sample, the high byte that carries
/// most of the amplitude included, is replaced independently with probability
/// threshold / 65536 by the low byte of a fresh draw.
pub fn corrupt_audio_chunk(chunk: &mut [u8], threshold: u16, pool: &[u16])
    requires
        pool@.len() >= 2 * old(chunk)@.len(),
    ensures
        final(chunk)@ == spec_audio_chunk(old(chunk)@, threshold, pool@),
{
    let n = chunk.len();
    let mut draw: usize = 0;
    let mut i: usize = 0;
    while i < n
        invariant
            n == chunk@.len() == old(chunk)@.len(),
            pool@.len() >= 2 * n,
            i <= n,
            draw == byte_draw_index(pool@, threshold, i as nat),
            draw <= 2 * i,
            forall|j: int| 0 <= j < i ==> chunk@[j] == audio_byte(old(chunk)@, threshold, pool@, j),
            forall|j: int| i <= j < n ==> chunk@[j] == old(chunk)@[j],
        decreases n - i,
    {
        if pool[draw] < threshold {
            draw = draw + 1;
            chunk[i] = pool[draw] as u8;
        }
        draw = draw + 1;
        i = i + 1;
    }
    assert(chunk@ =~= spec_audio_chunk(old(chunk)@, threshold, pool@));
}

/// Corrupting an image chunk with any draws gives a possible image corruption
/// outcome.
pub proof fn lemma_image_chunk_outcome(before: Seq<u8>, threshold: u16, pool: Seq<u16>)
    ensures
        corruption_outcome(before, spec_image_chunk(before, threshold, pool), FileType::Image, threshold),
{
    let after = spec_image_chunk(before, threshold, pool);
    if threshold == 0 {
        assert(after =~= before);
    }
    assert forall|i: int| 0 <= i < before.len() implies #[trigger] byte_outcome(
        before,
        after,
        FileType::Image,
        i,
    ) by {}
}

/// Corrupting an audio chunk with any draws gives a possible audio corruption
/// outcome.
pub proof fn lemma_audio_chunk_outcome(before: Seq<u8>, threshold: u16, pool: Seq<u16>)
    ensures
        corruption_outcome(before, spec_audio_chunk(before, threshold, pool), FileType::Audio, threshold),
{
    if threshold == 0 {
        assert(spec_audio_chunk(before, threshold, pool) =~= before);
    }
}

/// A text chunk changed as the draws call for is a possible text corruption
/// outcome.
pub proof fn lemma_text_chunk_outcome(before: Seq<u8>, after: Seq<u8>, threshold: u16, pool: Seq<u16>)
    requires
        after.len() == before.len(),
        forall|i: int|
            0 <= i < before.len() ==> #[trigger] text_byte_drawn(before[i], after[i], threshold, pool, i),
    ensures
        corruption_outcome(before, after, FileType::Text, threshold),
{
    assert forall|i: int| 0 <= i < before.len() implies #[trigger] byte_outcome(
        before,
        after,
        FileType::Text,
        i,
    ) by {
        assert(text_byte_drawn(before[i], after[i], threshold, pool, i));
        let r = pool[byte_draw_index(pool, threshold, i as nat) + 1int];
        assert(r % PRINTABLE_ASCII_COUNT < 95);
    }
    if threshold == 0 {
        assert forall|i: int| 0 <= i < before.len() implies after[i] == before[i] by {
            assert(text_byte_drawn(before[i], after[i], threshold, pool, i));
        }
        assert(after =~= before);
    }
}

/// Corruption outcomes of two consecutive parts, the first a whole number of
/// pixels long, make a corruption outcome of the two together. This is what lets a
/// payload be corrupted chunk by chunk, or region by region.
pub proof fn lemma_outcome_concat(
    a_before: Seq<u8>,
    a_after: Seq<u8>,
    b_before: Seq<u8>,
    b_after: Seq<u8>,
    file_type: FileType,
    threshold: u16,
)
    requires
        corruption_outcome(a_before, a_after, file_type, threshold),
        corruption_outcome(b_before, b_after, file_type, threshold),
        a_before.len() % 4 == 0,
    ensures
        corruption_outcome(a_before + b_before, a_after + b_after, file_type, threshold),
{
    let before = a_before + b_before;
    let after = a_after + b_after;
    let n = a_before.len();
    assert forall|i: int| 0 <= i < before.len() implies #[trigger] byte_outcome(
        before,
        after,
        file_type,
        i,
    ) by {
        if i < n {
            assert(byte_outcome(a_before, a_after, file_type, i));
            assert(before[i] == a_before[i] && after[i] == a_after[i]);
            assert(whole_pixel_len(n) == n);
        } else {
            let j = i - n;
            assert(byte_outcome(b_before, b_after, file_type, j));
            assert(before[i] == b_before[j] && after[i] == b_after[j]);
            assert(i % 4 == j % 4) by (nonlinear_arith)
                requires
                    j == i - n,
                    n % 4 == 0,
            ;
            assert(whole_pixel_len(before.len()) == n + whole_pixel_len(b_before.len()))
                by (nonlinear_arith)
                requires
                    n % 4 == 0,
                    before.len() == n + b_before.len(),
            ;
        }
    }
    if threshold == 0 {
        assert(after =~= before);
    }
}

/// Where chunk `k` of a region of `len` bytes ends: chunks are [`CHUNK_BYTES`]
/// long, the last one shorter.
pub open spec fn chunk_end(len: nat, k: int) -> int {
    if (k + 1) * CHUNK_BYTES < len {
        (k + 1) * CHUNK_BYTES
    } else {
        len as int
    }
}

/// A chunk went from `before` to `after` exactly as the draws in `pool` call for.
pub open spec fn chunk_drawn(
    before: Seq<u8>,
    after: Seq<u8>,
    file_type: FileType,
    threshold: u16,
    pool: Seq<u16>,
) -> bool {
    match file_type {
        FileType::Image => after == spec_image_chunk(before, threshold, pool),
        FileType::Audio => after == spec_audio_chunk(before, threshold, pool),
        FileType::Text => after.len() == before.len() && forall|i: int|
            0 <= i < before.len() ==> #[trigger] text_byte_drawn(
                before[i],
                after[i],
                threshold,
                pool,
                i,
            ),
    }
}

/// Chunk `k` of a region went from `before` to `after` as its share of `draws`
/// calls for: the chunk starting at byte `k * CHUNK_BYTES` takes the draws
/// starting at twice that position, each chunk starting its count afresh.
pub open spec fn region_chunk_drawn(
    before: Seq<u8>,
    after: Seq<u8>,
    file_type: FileType,
    threshold: u16,
    draws: Seq<u16>,
    k: int,
) -> bool {
    let start = k * CHUNK_BYTES;
    let end = chunk_end(before.len(), k);
    chunk_drawn(
        before.subrange(start, end),
        after.subrange(start, end),
        file_type,
        threshold,
        draws.subrange(2 * start, 2 * end),
    )
}

/// A region went from `before` to `after` as `draws` call for, chunk by chunk.
pub open spec fn region_drawn(
    before: Seq<u8>,
    after: Seq<u8>,
    file_type: FileType,
    threshold: u16,
    draws: Seq<u16>,
) -> bool {
    &&& after.len() == before.len()
    &&& forall|k: int|
        0 <= k && k * CHUNK_BYTES < before.len() ==> #[trigger] region_chunk_drawn(
            before,
            after,
            file_type,
            threshold,
            draws,
            k,
        )
}

/// A chunk changed as its draws call for is a possible corruption outcome.
proof fn lemma_chunk_drawn_outcome(
    before: Seq<u8>,
    after: Seq<u8>,
    file_type: FileType,
    threshold: u16,
    pool: Seq<u16>,
)
    requires
        chunk_drawn(before, after, file_type, threshold, pool),
    ensures
        corruption_outcome(before, after, file_type, threshold),
{
    match file_type {
        FileType::Image => lemma_image_chunk_outcome(before, threshold, pool),
        FileType::Audio => lemma_audio_chunk_outcome(before, threshold, pool),
        FileType::Text => lemma_text_chunk_outcome(before, after, threshold, pool),
    }
}

/// Corrupts a region with the given draws, in sub-blocks of [`CHUNK_BYTES`]: the
/// sub-block at byte `s` takes its decision and replacement draws from `draws`
/// starting at `2 * s`, left to right, leftover draws of a sub-block unused. A text
/// byte whose replacement draw is too high for the mapping gets a printable byte
/// drawn from `rng`.
pub fn corrupt_with_draws(
    region: &mut [u8],
    file_type: FileType,
    threshold: u16,
    draws: &[u16],
    rng: &mut DrawRng,
)
    requires
        draws@.len() >= 2 * old(region)@.len(),
    ensures
        region_drawn(old(region)@, final(region)@, file_type, threshold, draws@),
        corruption_outcome(old(region)@, final(region)@, file_type, threshold),
{
    let len = region.len();
    let draws_len = draws.len();
    let mut start: usize = 0;
    let mut k: usize = 0;
    assert(region@.subrange(0, 0) =~= old(region)@.subrange(0, 0));
    while start < len
        invariant
            len == region@.len() == old(region)@.len(),
            draws_len == draws@.len(),
            draws@.len() >= 2 * len,
            start <= len,
            start == k * CHUNK_BYTES || start == len,
            start < len ==> start == k * CHUNK_BYTES,
            forall|j: int|
                0 <= j && j * CHUNK_BYTES < start ==> #[trigger] region_chunk_drawn(
                    old(region)@,
                    region@,
                    file_type,
                    threshold,
                    draws@,
                    j,
                ),
            corruption_outcome(
                old(region)@.subrange(0, start as int),
                region@.subrange(0, start as int),
                file_type,
                threshold,
            ),
            region@.subrange(start as int, len as int) == old(region)@.subrange(
                start as int,
                len as int,
            ),
        decreases len - start,
    {
        let chunk_len = if len - start < CHUNK_BYTES {
            len - start
        } else {
            CHUNK_BYTES
        };
        let end = start + chunk_len;
        let pool = &draws[2 * start..2 * end];
        let ghost prev = region@;
        let ghost chunk_before = prev.subrange(start as int, end as int);
        let ghost chunk_after: Seq<u8>;
        {
            let (_done, rest) = region.split_at_mut(start);
            let (chunk, _after) = rest.split_at_mut(chunk_len);
            assert(chunk@ == chunk_before);
            match file_type {
                FileType::Text => corrupt_text_chunk(chunk, threshold, pool, rng),
                FileType::Image => corrupt_image_chunk(chunk, threshold, pool),
                FileType::Audio => corrupt_audio_chunk(chunk, threshold, pool),
            }
            proof {
                chunk_after = chunk@;
                assert(chunk_drawn(chunk_before, chunk_after, file_type, threshold, pool@));
            }
        }
        assert(region@ =~= prev.subrange(0, start as int) + chunk_after + prev.subrange(
            end as int,
            len as int,
        ));
        proof {
            assert(region@.subrange(0, start as int) =~= prev.subrange(0, start as int));
            assert(old(region)@.subrange(start as int, end as int) =~= chunk_before);
            assert(region@.subrange(start as int, end as int) =~= chunk_after);
            assert(chunk_end(len as nat, k as int) == end);
            assert(region_chunk_drawn(old(region)@, region@, file_type, threshold, draws@, k as int));
            assert forall|j: int|
                0 <= j && j * CHUNK_BYTES < end implies #[trigger] region_chunk_drawn(
                old(region)@,
                region@,
                file_type,
                threshold,
                draws@,
                j,
            ) by {
                if j < k {
                    assert(region_chunk_drawn(old(region)@, prev, file_type, threshold, draws@, j));
                    let e = chunk_end(len as nat, j);
                    assert(e <= start);
                    assert(region@.subrange(j * CHUNK_BYTES, e) =~= prev.subrange(
                        j * CHUNK_BYTES,
                        e,
                    ));
                }
            }
            lemma_chunk_drawn_outcome(chunk_before, chunk_after, file_type, threshold, pool@);
            lemma_outcome_concat(
                old(region)@.subrange(0, start as int),
                region@.subrange(0, start as int),
                chunk_before,
                chunk_after,
                file_type,
                threshold,
            );
            assert(old(region)@.subrange(0, end as int) =~= old(region)@.subrange(
                0,
                start as int,
            ) + chunk_before);
            assert(region@.subrange(0, end as int) =~= region@.subrange(0, start as int)
                + chunk_after);
        }
        start = end;
        k = k + 1;
    }
    assert(region@ =~= region@.subrange(0, len as int));
    assert(old(region)@ =~= old(region)@.subrange(0, len as int));
}

/// Corrupts a whole region in sub-blocks of [`CHUNK_BYTES`]. For each sub-block,
/// one fill of a pool of two draws per byte supplies its decision and replacement
/// draws; the pool is reused from sub-block to sub-block, so a region holds at
/// most 256 KiB of draws at once. A text byte whose replacement draw is too high
/// for the mapping gets a printable byte drawn from `rng` right away, between the
/// fills.
///
/// The draws used, sub-block after sub-block, are draws under which the region
/// changed exactly as [`corrupt_with_draws`] states for them.
pub fn region_work(region: &mut [u8], file_type: FileType, threshold: u16, rng: &mut DrawRng)
    ensures
        exists|draws: Seq<u16>|
            draws.len() == 2 * old(region)@.len() && #[trigger] region_drawn(
                old(region)@,
                final(region)@,
                file_type,
                threshold,
                draws,
            ),
        corruption_outcome(old(region)@, final(region)@, file_type, threshold),
{
    let len = region.len();
    let mut pool: Vec<u16> = vec![0u16; 2 * CHUNK_BYTES];
    let ghost mut used: Seq<u16> = Seq::empty();
    let mut start: usize = 0;
    let mut k: usize = 0;
    assert(region@.subrange(0, 0) =~= old(region)@.subrange(0, 0));
    while start < len
        invariant
            len == region@.len() == old(region)@.len(),
            pool@.len() == 2 * CHUNK_BYTES,
            used.len() == 2 * start,
            start <= len,
            start == k * CHUNK_BYTES || start == len,
            start < len ==> start == k * CHUNK_BYTES,
            forall|j: int|
                0 <= j && j * CHUNK_BYTES < start ==> #[trigger] region_chunk_drawn(
                    old(region)@,
                    region@,
                    file_type,
                    threshold,
                    used,
                    j,
                ),
            corruption_outcome(
                old(region)@.subrange(0, start as int),
                region@.subrange(0, start as int),
                file_type,
                threshold,
            ),
            region@.subrange(start as int, len as int) == old(region)@.subrange(
                start as int,
                len as int,
            ),
        decreases len - start,
    {
        let chunk_len = if len - start < CHUNK_BYTES {
            len - start
        } else {
            CHUNK_BYTES
        };
        let end = start + chunk_len;
        rng.fill_draws(&mut pool, 2 * chunk_len);
        let all = pool.as_slice();
        let drawn = &all[0..2 * chunk_len];
        let ghost prev = region@;
        let ghost prev_used = used;
        let ghost chunk_before = prev.subrange(start as int, end as int);
        let ghost chunk_after: Seq<u8>;
        {
            let (_done, rest) = region.split_at_mut(start);
            let (chunk, _after) = rest.split_at_mut(chunk_len);
            assert(chunk@ == chunk_before);
            match file_type {
                FileType::Text => corrupt_text_chunk(chunk, threshold, drawn, rng),
                FileType::Image => corrupt_image_chunk(chunk, threshold, drawn),
                FileType::Audio => corrupt_audio_chunk(chunk, threshold, drawn),
            }
            proof {
                chunk_after = chunk@;
                assert(chunk_drawn(chunk_before, chunk_after, file_type, threshold, drawn@));
            }
        }
        proof {
            used = prev_used + drawn@;
        }
        assert(region@ =~= prev.subrange(0, start as int) + chunk_after + prev.subrange(
            end as int,
            len as int,
        ));
        proof {
            assert(region@.subrange(0, start as int) =~= prev.subrange(0, start as int));
            assert(old(region)@.subrange(start as int, end as int) =~= chunk_before);
            assert(region@.subrange(start as int, end as int) =~= chunk_after);
            assert(used.subrange(2 * start, 2 * end) =~= drawn@);
            assert(chunk_end(len as nat, k as int) == end);
            assert(region_chunk_drawn(old(region)@, region@, file_type, threshold, used, k as int));
            assert forall|j: int|
                0 <= j && j * CHUNK_BYTES < end implies #[trigger] region_chunk_drawn(
                old(region)@,
                region@,
                file_type,
                threshold,
                used,
                j,
            ) by {
                if j < k {
                    assert(region_chunk_drawn(
                        old(region)@,
                        prev,
                        file_type,
                        threshold,
                        prev_used,
                        j,
                    ));
                    let e = chunk_end(len as nat, j);
                    assert(e <= start);
                    assert(region@.subrange(j * CHUNK_BYTES, e) =~= prev.subrange(
                        j * CHUNK_BYTES,
                        e,
                    ));
                    assert(used.subrange(2 * (j * CHUNK_BYTES), 2 * e) =~= prev_used.subrange(
                        2 * (j * CHUNK_BYTES),
                        2 * e,
                    ));
                }
            }
            lemma_chunk_drawn_outcome(chunk_before, chunk_after, file_type, threshold, drawn@);
            lemma_outcome_concat(
                old(region)@.subrange(0, start as int),
                region@.subrange(0, start as int),
                chunk_before,
                chunk_after,
                file_type,
                threshold,
            );
            assert(old(region)@.subrange(0, end as int) =~= old(region)@.subrange(
                0,
                start as int,
            ) + chunk_before);
            assert(region@.subrange(0, end as int) =~= region@.subrange(0, start as int)
                + chunk_after);
        }
        start = end;
        k = k + 1;
    }
    assert(region@ =~= region@.subrange(0, len as int));
    assert(old(region)@ =~= old(region)@.subrange(0, len as int));
    assert(region_drawn(old(region)@, region@, file_type, threshold, used));
}

/// How many bytes at the start of a payload of `len` bytes are eligible for
/// corruption: all of a text or audio payload, the whole pixels of an image.
pub fn eligible_len(len: usize, file_type: FileType) -> (n: usize)
    ensures
        n == spec_eligible_len(len as nat, file_type),
{
    match file_type {
        FileType::Image => len - len % RGBA_BYTES_PER_PIXEL,
        _ => len,
    }
}

/// Where byte `m` of a sub-block takes its draws when every decision draw is zero:
/// each byte is selected, so each takes two draws.
proof fn lemma_all_selected_draw_index(pool: Seq<u16>, threshold: u16, m: nat)
    requires
        threshold > 0,
        2 * m <= pool.len(),
        forall|j: int| 0 <= j < pool.len() && j % 2 == 0 ==> #[trigger] pool[j] == 0,
    ensures
        byte_draw_index(pool, threshold, m) == 2 * m,
    decreases m,
{
    if m > 0 {
        lemma_all_selected_draw_index(pool, threshold, (m - 1) as nat);
        let d = 2 * (m - 1);
        assert(d % 2 == 0);
        assert(pool[d as int] == 0);
    }
}

/// Audio corruption exempts no byte and no value: whatever bytes of the same
/// length, each position holding any value 0 to 255, are what corrupting an audio
/// payload gives under some draws, for every threshold above zero.
pub proof fn lemma_audio_reaches_every_outcome(before: Seq<u8>, after: Seq<u8>, threshold: u16)
    requires
        threshold > 0,
        after.len() == before.len(),
    ensures
        exists|draws: Seq<u16>|
            draws.len() == 2 * before.len() && #[trigger] region_drawn(
                before,
                after,
                FileType::Audio,
                threshold,
                draws,
            ),
{
    let n = before.len() as int;
    let draws = Seq::new(
        (2 * n) as nat,
        |j: int|
            if j % 2 == 0 {
                0u16
            } else {
                after[j / 2] as u16
            },
    );
    assert forall|k: int| 0 <= k && k * CHUNK_BYTES < n implies #[trigger] region_chunk_drawn(
        before,
        after,
        FileType::Audio,
        threshold,
        draws,
        k,
    ) by {
        let st = k * CHUNK_BYTES;
        let e = chunk_end(n as nat, k);
        let pool = draws.subrange(2 * st, 2 * e);
        let chunk = before.subrange(st, e);
        assert forall|j: int| 0 <= j < pool.len() && j % 2 == 0 implies #[trigger] pool[j] == 0 by {
            assert(pool[j] == draws[2 * st + j]);
            assert((2 * st + j) % 2 == 0);
        }
        assert forall|m: int| 0 <= m < e - st implies #[trigger] spec_audio_chunk(
            chunk,
            threshold,
            pool,
        )[m] == after.subrange(st, e)[m] by {
            lemma_all_selected_draw_index(pool, threshold, m as nat);
            assert(pool[2 * m] == 0) by {
                assert((2 * m) % 2 == 0);
            }
            assert(pool[2 * m + 1] == draws[2 * st + 2 * m + 1]);
            assert((2 * st + 2 * m + 1) % 2 == 1);
            assert((2 * st + 2 * m + 1) / 2 == st + m);
            assert(after[st + m] as u16 as u8 == after[st + m]);
        }
        assert(spec_audio_chunk(chunk, threshold, pool) =~= after.subrange(st, e));
    }
    assert(region_drawn(before, after, FileType::Audio, threshold, draws));
}

/// Given the draws, image and audio corruption leave no choice: two results of
/// corrupting the same bytes under the same draws are the same bytes.
pub proof fn lemma_drawn_is_determined(
    before: Seq<u8>,
    a1: Seq<u8>,
    a2: Seq<u8>,
    file_type: FileType,
    threshold: u16,
    draws: Seq<u16>,
)
    requires
        file_type != FileType::Text,
        region_drawn(before, a1, file_type, threshold, draws),
        region_drawn(before, a2, file_type, threshold, draws),
    ensures
        a1 == a2,
{
    let n = before.len() as int;
    assert forall|i: int| 0 <= i < n implies a1[i] == a2[i] by {
        let k = i / (CHUNK_BYTES as int);
        assert(k * CHUNK_BYTES <= i < (k + 1) * CHUNK_BYTES && k >= 0) by (nonlinear_arith)
            requires
                k == i / (CHUNK_BYTES as int),
                i >= 0,
        ;
        let st = k * CHUNK_BYTES;
        let e = chunk_end(n as nat, k);
        assert(region_chunk_drawn(before, a1, file_type, threshold, draws, k));
        assert(region_chunk_drawn(before, a2, file_type, threshold, draws, k));
        assert(a1.subrange(st, e) == a2.subrange(st, e));
        assert(a1[i] == a1.subrange(st, e)[i - st]);
        assert(a2[i] == a2.subrange(st, e)[i - st]);
    }
    assert(a1 =~= a2);
}

/// `after` is what corrupting the payload `before` as the given type calls for under
/// some draws: the length is kept, the bytes past the eligible part are kept, and
/// the eligible part went from before to after exactly as [`region_drawn`] states
/// for two draws per eligible byte.
pub open spec fn drawn_outcome(before: Seq<u8>, after: Seq<u8>, file_type: FileType, threshold: u16) -> bool {
    let e = spec_eligible_len(before.len(), file_type) as int;
    &&& after.len() == before.len()
    &&& after.subrange(e, after.len() as int) == before.subrange(e, before.len() as int)
    &&& exists|draws: Seq<u16>|
        draws.len() == 2 * e && #[trigger] region_drawn(
            before.subrange(0, e),
            after.subrange(0, e),
            file_type,
            threshold,
            draws,
        )
}

/// Corrupts one region with a generator of its own, seeded from operating system
/// entropy, so that regions corrupted side by side draw independently. When no
/// generator can be seeded, the region is left as it was and the refusal says why.
pub fn corrupt_region(region: &mut [u8], file_type: FileType, threshold: u16) -> (r: Result<
    (),
    DecayError,
>)
    ensures
        r is Ok ==> corruption_outcome(old(region)@, final(region)@, file_type, threshold),
        r is Ok ==> exists|draws: Seq<u16>|
            draws.len() == 2 * old(region)@.len() && #[trigger] region_drawn(
                old(region)@,
                final(region)@,
                file_type,
                threshold,
                draws,
            ),
        r matches Err(e) ==> is_entropy_error(e) && final(region)@ == old(region)@,
{
    let mut rng = match fresh_rng() {
        Ok(rng) => rng,
        Err(e) => return Err(e),
    };
    region_work(region, file_type, threshold, &mut rng);
    Ok(())
}

/// Corrupts the eligible part of `payload` with the given threshold, in place.
///
/// Text and audio corrupt every byte; an image corrupts only the R, G and B channels
/// of whole pixels, so its bytes after the last whole pixel are left as they are.
/// Each byte is selected with probability threshold / 65536. The draws come from a
/// generator freshly seeded from operating system entropy; when none can be seeded,
/// the payload is left as it was and the refusal says why.
pub fn corrupt_payload(payload: &mut [u8], file_type: FileType, threshold: u16) -> (r: Result<
    (),
    DecayError,
>)
    ensures
        r is Ok ==> corruption_outcome(old(payload)@, final(payload)@, file_type, threshold),
        r matches Err(e) ==> is_entropy_error(e) && final(payload)@ == old(payload)@,
        spec_eligible_len(old(payload)@.len(), file_type) == 0 ==> r is Ok && final(payload)@
            == old(payload)@,
        r is Ok ==> drawn_outcome(old(payload)@, final(payload)@, file_type, threshold),
{
    let eligible_len = eligible_len(payload.len(), file_type);
    if eligible_len == 0 {
        proof {
            assert forall|i: int| 0 <= i < old(payload)@.len() implies #[trigger] byte_outcome(
                old(payload)@,
                payload@,
                file_type,
                i,
            ) by {}
            let none = Seq::<u16>::empty();
            assert(old(payload)@.subrange(0, 0) =~= Seq::<u8>::empty());
            assert(region_drawn(
                old(payload)@.subrange(0, 0),
                payload@.subrange(0, 0),
                file_type,
                threshold,
                none,
            ));
            assert(payload@.subrange(0, payload@.len() as int) =~= payload@);
            assert(old(payload)@.subrange(0, old(payload)@.len() as int) =~= old(payload)@);
        }
        return Ok(());
    }
    let mut rng = match fresh_rng() {
        Ok(rng) => rng,
        Err(e) => return Err(e),
    };
    let ghost before = payload@;
    let ghost eligible_after: Seq<u8>;
    {
        let (eligible, _rest) = payload.split_at_mut(eligible_len);
        region_work(eligible, file_type, threshold, &mut rng);
        proof {
            eligible_after = eligible@;
        }
    }
    proof {
        let n = before.len();
        let e = eligible_len as int;
        assert(payload@ =~= eligible_after + before.subrange(e, n as int));
        assert(before.subrange(0, e).len() == e);
        assert(payload@.subrange(0, e) =~= eligible_after);
        assert(payload@.subrange(e, n as int) =~= before.subrange(e, n as int));
        let eb = before.subrange(0, e);
        assert(e % 4 == 0 || e == n);
        assert forall|i: int| 0 <= i < n implies #[trigger] byte_outcome(
            before,
            payload@,
            file_type,
            i,
        ) by {
            if i < e {
                assert(byte_outcome(eb, eligible_after, file_type, i));
                assert(eb[i] == before[i]);
                assert(payload@[i] == eligible_after[i]);
                if file_type == FileType::Image {
                    assert(whole_pixel_len(eb.len()) == e);
                }
            } else {
                assert(payload@[i] == before[i]);
            }
        }
        if threshold == 0 {
            assert(payload@ =~= before);
        }
    }
    Ok(())
}

} // verus!
