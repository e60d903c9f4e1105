use decayfmt::corrupt::{
    corrupt_audio_chunk, corrupt_image_chunk, corrupt_payload, corrupt_region,
    corrupt_text_chunk, corrupt_with_draws, eligible_len, fresh_rng, region_work, DrawRng,
    ALPHA_INDEX, CHUNK_BYTES, REGION_BYTES, RGBA_BYTES_PER_PIXEL,
};
use rayon::iter::ParallelIterator;
use rayon::slice::ParallelSliceMut;
use decayfmt::format::FileType;
use rand::rngs::StdRng;
use rand::SeedableRng;

/// Tolerance for comparing an observed corruption fraction against its expected
/// probability.
const FRACTION_TOLERANCE: f64 = 0.01;

/// The threshold an instability value x gives: p = 1 - exp(-x / 10), scaled to
/// 65536 and saturated into a u16.
fn threshold_for(x: f64) -> u16 {
    ((1.0 - (-x / 10.0).exp()) * 65536.0) as u16
}

/// Counts how many bytes differ between two equally sized slices.
fn changed_count(before: &[u8], after: &[u8]) -> usize {
    before
        .iter()
        .zip(after.iter())
        .filter(|(a, b)| a != b)
        .count()
}

/// Corrupts a payload as a large open does: its eligible part split into regions
/// corrupted on several threads, each with a generator of its own.
fn corrupt_in_regions(payload: &mut [u8], file_type: FileType, threshold: u16) {
    let eligible = eligible_len(payload.len(), file_type);
    payload[..eligible]
        .par_chunks_mut(REGION_BYTES)
        .for_each(|region| {
            corrupt_region(region, file_type, threshold).expect("seeding should succeed")
        });
}

#[test]
fn text_corruption_fraction_at_x1_is_near_expected() {
    let original = vec![0u8; 100_000];
    let mut payload = original.clone();
    corrupt_payload(&mut payload, FileType::Text, threshold_for(1.0)).expect("seeding should succeed");
    let fraction = changed_count(&original, &payload) as f64 / original.len() as f64;
    assert!(
        (fraction - 0.095).abs() < FRACTION_TOLERANCE,
        "x=1 text fraction {} not within {} of 0.095",
        fraction,
        FRACTION_TOLERANCE
    );
}

#[test]
fn text_corruption_fraction_at_x10_is_near_expected() {
    let original = vec![0u8; 100_000];
    let mut payload = original.clone();
    corrupt_payload(&mut payload, FileType::Text, threshold_for(10.0)).expect("seeding should succeed");
    let fraction = changed_count(&original, &payload) as f64 / original.len() as f64;
    assert!(
        (fraction - 0.632).abs() < FRACTION_TOLERANCE,
        "x=10 text fraction {} not within {} of 0.632",
        fraction,
        FRACTION_TOLERANCE
    );
}

#[test]
fn higher_x_corrupts_at_least_as_much_as_lower_x_on_average() {
    const TRIALS: usize = 50;
    const LEN: usize = 10_000;
    let mut low_total = 0usize;
    let mut high_total = 0usize;
    for _ in 0..TRIALS {
        let original = vec![0u8; LEN];

        let mut low_payload = original.clone();
        corrupt_payload(&mut low_payload, FileType::Text, threshold_for(2.0)).expect("seeding should succeed");
        low_total += changed_count(&original, &low_payload);

        let mut high_payload = original.clone();
        corrupt_payload(&mut high_payload, FileType::Text, threshold_for(8.0)).expect("seeding should succeed");
        high_total += changed_count(&original, &high_payload);
    }
    assert!(
        high_total > low_total,
        "higher x mean corruption ({}) was not greater than lower x ({})",
        high_total,
        low_total
    );
}

#[test]
fn image_alpha_channel_is_never_modified() {
    const PIXELS: usize = 2_000;
    const ALPHA_SENTINEL: u8 = 0xAB;
    const RUNS: usize = 1_000;

    for _ in 0..RUNS {
        let mut payload = Vec::with_capacity(PIXELS * RGBA_BYTES_PER_PIXEL);
        for _ in 0..PIXELS {
            payload.extend_from_slice(&[0x00, 0x00, 0x00, ALPHA_SENTINEL]);
        }

        corrupt_payload(&mut payload, FileType::Image, threshold_for(10.0)).expect("seeding should succeed");

        for pixel in payload.chunks_exact(RGBA_BYTES_PER_PIXEL) {
            assert_eq!(
                pixel[ALPHA_INDEX], ALPHA_SENTINEL,
                "alpha channel was modified by corruption"
            );
        }
    }
}

#[test]
fn image_rgb_corruption_fraction_is_near_expected() {
    const PIXELS: usize = 50_000;
    let mut payload = vec![0u8; PIXELS * RGBA_BYTES_PER_PIXEL];
    corrupt_payload(&mut payload, FileType::Image, threshold_for(10.0)).expect("seeding should succeed");

    let mut changed = 0usize;
    let rgb_channels = PIXELS * 3;
    for pixel in payload.chunks_exact(RGBA_BYTES_PER_PIXEL) {
        for channel in pixel.iter().take(ALPHA_INDEX) {
            if *channel != 0 {
                changed += 1;
            }
        }
    }

    let fraction = changed as f64 / rgb_channels as f64;
    assert!(
        (fraction - 0.632).abs() < FRACTION_TOLERANCE,
        "x=10 image RGB fraction {} not within {} of 0.632",
        fraction,
        FRACTION_TOLERANCE
    );
}

#[test]
fn image_alpha_never_modified_large_parallel() {
    const PAYLOAD_BYTES: usize = 8 * 1024 * 1024;
    const ALPHA_SENTINEL: u8 = 0xCD;
    let mut payload = Vec::with_capacity(PAYLOAD_BYTES);
    while payload.len() < PAYLOAD_BYTES {
        payload.extend_from_slice(&[0x00, 0x00, 0x00, ALPHA_SENTINEL]);
    }

    corrupt_in_regions(&mut payload, FileType::Image, threshold_for(10.0));

    assert_eq!(
        payload.len(),
        PAYLOAD_BYTES,
        "corruption changed the length"
    );
    for pixel in payload.chunks_exact(RGBA_BYTES_PER_PIXEL) {
        assert_eq!(
            pixel[ALPHA_INDEX], ALPHA_SENTINEL,
            "alpha channel was modified by parallel corruption"
        );
    }
}

#[test]
fn large_text_fraction_near_expected() {
    for (x, expected) in [(1.0, 0.095), (10.0, 0.632)] {
        let original = vec![0u8; 8 * 1024 * 1024];
        let mut payload = original.clone();
        corrupt_in_regions(&mut payload, FileType::Text, threshold_for(x));
        let fraction = changed_count(&original, &payload) as f64 / original.len() as f64;
        assert!(
            (fraction - expected).abs() < FRACTION_TOLERANCE,
            "x={} text fraction {} not within {} of {}",
            x,
            fraction,
            FRACTION_TOLERANCE,
            expected
        );
    }
}

#[test]
fn large_image_rgb_fraction_near_expected() {
    let payload = vec![0u8; 8 * 1024 * 1024];
    for (x, expected) in [(1.0, 0.095), (10.0, 0.632)] {
        let mut corrupted = payload.clone();
        corrupt_in_regions(&mut corrupted, FileType::Image, threshold_for(x));

        let mut changed = 0usize;
        for pixel in corrupted.chunks_exact(RGBA_BYTES_PER_PIXEL) {
            for channel in pixel.iter().take(ALPHA_INDEX) {
                if *channel != 0 {
                    changed += 1;
                }
            }
        }
        let rgb_channels = corrupted.len() / RGBA_BYTES_PER_PIXEL * 3;
        let fraction = changed as f64 / rgb_channels as f64;
        assert!(
            (fraction - expected).abs() < FRACTION_TOLERANCE,
            "x={} image RGB fraction {} not within {} of {}",
            x,
            fraction,
            FRACTION_TOLERANCE,
            expected
        );
    }
}

#[test]
fn image_trailing_bytes_untouched() {
    const PIXELS: usize = 1_000;
    const TRAILING: [u8; 2] = [0xDE, 0xAD];
    let mut payload = vec![0u8; PIXELS * RGBA_BYTES_PER_PIXEL];
    payload.extend_from_slice(&TRAILING);

    corrupt_payload(&mut payload, FileType::Image, threshold_for(10.0)).expect("seeding should succeed");

    assert_eq!(
        &payload[payload.len() - TRAILING.len()..],
        &TRAILING,
        "trailing bytes were modified by image corruption"
    );
}

#[test]
fn region_worker_reproduces_with_seeded_rng() {
    let threshold = threshold_for(10.0);
    let original: Vec<u8> = (0..200_000u32).map(|i| (i % 251) as u8).collect();

    let mut a = original.clone();
    region_work(
        &mut a,
        FileType::Text,
        threshold,
        &mut DrawRng::Seeded(StdRng::seed_from_u64(42)),
    );
    let mut b = original.clone();
    region_work(
        &mut b,
        FileType::Text,
        threshold,
        &mut DrawRng::Seeded(StdRng::seed_from_u64(42)),
    );
    assert_eq!(a, b, "same seed must reproduce identical corruption");

    let image_payload = vec![0u8; 4_000 * RGBA_BYTES_PER_PIXEL];
    let mut image_a = image_payload.clone();
    region_work(
        &mut image_a,
        FileType::Image,
        threshold,
        &mut DrawRng::Seeded(StdRng::seed_from_u64(42)),
    );
    let mut image_b = image_payload.clone();
    region_work(
        &mut image_b,
        FileType::Image,
        threshold,
        &mut DrawRng::Seeded(StdRng::seed_from_u64(42)),
    );
    assert_eq!(
        image_a, image_b,
        "same seed must reproduce identical corruption"
    );
}

#[test]
fn zero_threshold_changes_nothing() {
    for file_type in [FileType::Text, FileType::Image, FileType::Audio] {
        let original: Vec<u8> = (0..70_000u32).map(|i| (i % 256) as u8).collect();
        let mut payload = original.clone();
        corrupt_payload(&mut payload, file_type, 0).expect("seeding should succeed");
        assert_eq!(payload, original);
    }
}

#[test]
fn text_replacements_are_printable_ascii() {
    let original = vec![0u8; 50_000];
    let mut payload = original.clone();
    corrupt_payload(&mut payload, FileType::Text, u16::MAX).expect("seeding should succeed");
    assert_eq!(payload.len(), original.len());
    for (&before, &after) in original.iter().zip(payload.iter()) {
        assert!(after == before || (0x20..=0x7E).contains(&after));
    }
    // With the saturated threshold nearly every byte is replaced.
    assert!(changed_count(&original, &payload) > 49_000);
}

#[test]
fn audio_corruption_reaches_every_byte_of_a_sample() {
    // Both the low and the high byte of 16-bit samples are eligible.
    let original = vec![0u8; 40_000];
    let mut payload = original.clone();
    corrupt_payload(&mut payload, FileType::Audio, threshold_for(10.0)).expect("seeding should succeed");
    let low_changed = payload.iter().step_by(2).filter(|&&b| b != 0).count();
    let high_changed = payload.iter().skip(1).step_by(2).filter(|&&b| b != 0).count();
    assert!(low_changed > 10_000 && high_changed > 10_000);
}

#[test]
fn image_chunk_follows_its_draws_exactly() {
    // Pixel 0: R corrupted with 0x1234 -> 0x34, G kept, B corrupted with 0xFF01 -> 0x01.
    // The alpha byte consumes no draw. Pixel 1: R kept, G corrupted with 0x00AB -> 0xAB.
    let mut chunk = [10u8, 11, 12, 13, 20, 21, 22, 23, 30];
    let pool: Vec<u16> = vec![0, 0x1234, 100, 5, 0xFF01, 100, 1, 0x00AB, 100, 0, 0, 0, 0, 0, 0, 0, 0, 0];
    corrupt_image_chunk(&mut chunk, 50, &pool);
    assert_eq!(chunk, [0x34, 11, 0x01, 13, 20, 0xAB, 22, 23, 30]);
}

#[test]
fn text_chunk_maps_draws_to_printable_bytes() {
    // Byte 0: draw 3 < 10 selects it, replacement draw 0 maps to 0x20.
    // Byte 1: draw 10 is not below 10, so it is kept.
    // Byte 2: draw 0 selects it, replacement draw 95 + 33 maps to 0x20 + 33 = 'A'.
    let mut chunk = [b'a', b'b', b'c'];
    let pool: Vec<u16> = vec![3, 0, 10, 0, 128, 0];
    corrupt_text_chunk(&mut chunk, 10, &pool, &mut fresh_rng().expect("seeding should succeed"));
    assert_eq!(chunk, [0x20, b'b', b'A']);
}

#[test]
fn audio_chunk_takes_the_low_byte_of_its_draw() {
    let mut chunk = [1u8, 2, 3];
    let pool: Vec<u16> = vec![9, 7, 0xABCD, 0, 0x1234, 0];
    corrupt_audio_chunk(&mut chunk, 10, &pool);
    assert_eq!(chunk, [7, 2, 0x34]);
}

#[test]
fn eligible_length_is_whole_pixels_for_images() {
    assert_eq!(eligible_len(10, FileType::Image), 8);
    assert_eq!(eligible_len(10, FileType::Text), 10);
    assert_eq!(eligible_len(10, FileType::Audio), 10);
    assert_eq!(eligible_len(3, FileType::Image), 0);
}

#[test]
fn draws_are_taken_chunk_by_chunk() {
    // Two chunks: the second starts its draws at twice its first byte's position.
    let len = CHUNK_BYTES + 3;
    let original = vec![7u8; len];
    let mut draws = vec![u16::MAX; 2 * len];
    // First byte of the first chunk: selected, replaced by 0x0111 -> 0x11.
    draws[0] = 0;
    draws[1] = 0x0111;
    // First byte of the second chunk: selected, replaced by 0x0222 -> 0x22.
    draws[2 * CHUNK_BYTES] = 0;
    draws[2 * CHUNK_BYTES + 1] = 0x0222;
    let mut region = original.clone();
    corrupt_with_draws(&mut region, FileType::Audio, 10, &draws, &mut fresh_rng().expect("seeding should succeed"));
    let mut expected = original.clone();
    expected[0] = 0x11;
    expected[CHUNK_BYTES] = 0x22;
    assert_eq!(region, expected);
}

#[test]
fn text_chunk_leaves_the_generator_alone_without_fallback() {
    let mut chunk = [0x41u8, 0x42, 0x43];
    let pool: Vec<u16> = vec![50, 5, 200, 99, 190, 0];
    let mut rng = DrawRng::Seeded(StdRng::seed_from_u64(7));
    corrupt_text_chunk(&mut chunk, 100, &pool, &mut rng);
    assert_eq!(chunk, [0x25, 0x42, 0x20]);
    let mut after = vec![0u16; 8];
    rng.fill_draws(&mut after, 8);
    let mut fresh = vec![0u16; 8];
    DrawRng::Seeded(StdRng::seed_from_u64(7)).fill_draws(&mut fresh, 8);
    assert_eq!(after, fresh);
}

#[test]
fn a_fresh_generator_is_seeded_from_the_operating_system() {
    assert!(matches!(fresh_rng(), Ok(DrawRng::Os(_))));
}

#[test]
fn region_work_corrupts_as_its_draws_call_for() {
    let threshold = threshold_for(5.0);
    let original: Vec<u8> = (0..(CHUNK_BYTES + 4_000) as u32).map(|i| (i % 253) as u8).collect();

    let mut worked = original.clone();
    region_work(
        &mut worked,
        FileType::Audio,
        threshold,
        &mut DrawRng::Seeded(StdRng::seed_from_u64(11)),
    );

    let mut draws = vec![0u16; 2 * original.len()];
    DrawRng::Seeded(StdRng::seed_from_u64(11)).fill_draws(&mut draws, 2 * original.len());
    let mut drawn = original.clone();
    corrupt_with_draws(
        &mut drawn,
        FileType::Audio,
        threshold,
        &draws,
        &mut DrawRng::Seeded(StdRng::seed_from_u64(0)),
    );
    assert_eq!(worked, drawn);
    assert_ne!(worked, original);
}

#[test]
fn an_empty_payload_needs_no_generator() {
    let mut payload: Vec<u8> = Vec::new();
    assert!(corrupt_payload(&mut payload, FileType::Text, u16::MAX).is_ok());
    let mut partial = vec![1u8, 2, 3];
    assert!(corrupt_payload(&mut partial, FileType::Image, u16::MAX).is_ok());
    assert_eq!(partial, vec![1, 2, 3]);
}
