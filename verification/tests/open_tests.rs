use decayfmt::error::DecayError;
use decayfmt::format::{AudioSpec, FileType, Header, ImageDimensions, HEADER_SIZE};
use decayfmt::open::{
    check_open_header, check_rgba_payload, decay_bytes, expected_rgba_len, pcm_samples,
    needs_line_break, text_for_display,
};

/// The threshold an instability value x gives: p = 1 - exp(-x / 10), scaled to
/// 65536 and saturated into a u16.
fn threshold_for(x: f64) -> u16 {
    ((1.0 - (-x / 10.0).exp()) * 65536.0) as u16
}

fn file_with(header: Header, payload: &[u8]) -> Vec<u8> {
    let mut bytes = header.write().to_vec();
    bytes.extend_from_slice(payload);
    bytes
}

#[test]
fn decay_changes_the_payload_but_never_the_header() {
    for (header, file_type, x) in [
        (Header::for_text(), FileType::Text, 5.0),
        (Header::for_audio(22_050, 1, 16), FileType::Audio, 10.0),
    ] {
        let before = file_with(header, &vec![b'a'; 4096]);
        let mut after = before.clone();
        let opened = decay_bytes(&mut after, file_type, threshold_for(x)).expect("decay should succeed");
        assert_eq!(opened, header);
        assert_eq!(&after[..HEADER_SIZE], &before[..HEADER_SIZE]);
        assert_ne!(&after[HEADER_SIZE..], &before[HEADER_SIZE..]);
        assert_eq!(after.len(), before.len());
        // The decayed file opens again under the same name.
        assert_eq!(check_open_header(&after, file_type).unwrap(), header);
    }
}

#[test]
fn mismatched_extension_and_header_type_is_refused() {
    let before = file_with(Header::for_image(2, 2), &[1, 2, 3, 255, 1, 2, 3, 255]);
    let mut bytes = before.clone();
    match decay_bytes(&mut bytes, FileType::Text, threshold_for(3.0)) {
        Err(DecayError::MismatchedFileType { extension_kind, header_kind }) => {
            assert_eq!(extension_kind, "text");
            assert_eq!(header_kind, "image");
        }
        other => panic!("expected MismatchedFileType, got {other:?}"),
    }
    assert_eq!(bytes, before, "a refused open changes nothing");
}

#[test]
fn wrong_magic_is_refused_and_nothing_changes() {
    let mut bytes = [0u8; 32];
    assert!(matches!(
        decay_bytes(&mut bytes, FileType::Text, threshold_for(3.0)),
        Err(DecayError::WrongMagic { .. })
    ));
    assert_eq!(bytes, [0u8; 32]);
}

#[test]
fn image_decay_keeps_alpha() {
    let mut payload = Vec::new();
    for _ in 0..1000 {
        payload.extend_from_slice(&[0, 0, 0, 0x7F]);
    }
    let mut bytes = file_with(Header::for_image(1000, 1), &payload);
    decay_bytes(&mut bytes, FileType::Image, threshold_for(10.0)).unwrap();
    for pixel in bytes[HEADER_SIZE..].chunks_exact(4) {
        assert_eq!(pixel[3], 0x7F);
    }
}

#[test]
fn pcm_samples_are_little_endian_i16() {
    let spec = AudioSpec { sample_rate: 8_000, channels: 1, bits_per_sample: 16 };
    assert_eq!(pcm_samples(&[1, 0, 0xFF, 0xFF, 0x00, 0x80], spec).unwrap(), vec![1, -1, i16::MIN]);
}

#[test]
fn pcm_refuses_partial_frames_and_bad_specs() {
    let stereo = AudioSpec { sample_rate: 8_000, channels: 2, bits_per_sample: 16 };
    match pcm_samples(&[0; 6], stereo) {
        Err(DecayError::PayloadSizeMismatch { expected, found }) => {
            assert_eq!(expected, 8);
            assert_eq!(found, 6);
        }
        other => panic!("expected PayloadSizeMismatch, got {other:?}"),
    }
    match pcm_samples(&[0; 4], AudioSpec { bits_per_sample: 24, ..stereo }) {
        Err(DecayError::AudioEncode { context }) => assert_eq!(
            context,
            "open: header declares 24 bits per sample but this build only writes and plays 16."
        ),
        other => panic!("expected AudioEncode, got {other:?}"),
    }
    assert!(matches!(
        pcm_samples(&[0; 4], AudioSpec { channels: 0, ..stereo }),
        Err(DecayError::AudioEncode { .. })
    ));
}

#[test]
fn expected_rgba_length_saturates() {
    assert_eq!(expected_rgba_len(ImageDimensions { width: 3, height: 2 }), 24);
    assert_eq!(
        expected_rgba_len(ImageDimensions { width: u32::MAX, height: u32::MAX }),
        usize::MAX
    );
}

#[test]
fn rgba_payload_must_match_its_dimensions_exactly() {
    let dims = ImageDimensions { width: 2, height: 3 };
    assert!(check_rgba_payload(24, dims).is_ok());
    for len in [23, 25, 0] {
        match check_rgba_payload(len, dims) {
            Err(DecayError::PayloadSizeMismatch { expected, found }) => {
                assert_eq!((expected, found), (24, len))
            }
            other => panic!("expected PayloadSizeMismatch, got {other:?}"),
        }
    }
}

#[test]
fn decayed_text_is_shown_on_a_line_of_its_own() {
    assert_eq!(text_for_display(b"hello\n"), ("hello\n".to_string(), false));
    assert_eq!(text_for_display(b"hello"), ("hello".to_string(), true));
    assert_eq!(text_for_display(b""), (String::new(), true));
    assert_eq!(text_for_display(b"a\xffb"), ("a\u{fffd}b".to_string(), true));
}

#[test]
fn an_empty_text_file_opens_unchanged() {
    let mut bytes = Header::for_text().write().to_vec();
    let before = bytes.clone();
    let header = decay_bytes(&mut bytes, FileType::Text, u16::MAX).unwrap();
    assert_eq!(header, Header::for_text());
    assert_eq!(bytes, before);
}

#[test]
fn a_line_break_follows_text_without_one() {
    assert!(needs_line_break(""));
    assert!(needs_line_break("abc"));
    assert!(!needs_line_break("abc\n"));
    assert!(needs_line_break("abc\n "));
}

#[test]
fn decay_broken_text_is_shown_with_replacement_characters() {
    let (text, needs_break) = text_for_display(b"caf\xc3 \xff\n");
    assert_eq!(text, "caf\u{fffd} \u{fffd}\n");
    assert!(!needs_break);
}

#[test]
fn unplayable_headers_are_refused_with_their_reason() {
    let wrong_bits = AudioSpec { sample_rate: 8_000, channels: 1, bits_per_sample: 8 };
    match pcm_samples(&[0, 0], wrong_bits) {
        Err(DecayError::AudioEncode { context }) => assert_eq!(
            context,
            "open: header declares 8 bits per sample but this build only writes and plays 16."
        ),
        other => panic!("expected AudioEncode, got {other:?}"),
    }
    let no_channels = AudioSpec { sample_rate: 8_000, channels: 0, bits_per_sample: 16 };
    match pcm_samples(&[0, 0], no_channels) {
        Err(DecayError::AudioEncode { context }) => {
            assert_eq!(context, "open: header declares zero audio channels.")
        }
        other => panic!("expected AudioEncode, got {other:?}"),
    }
}
