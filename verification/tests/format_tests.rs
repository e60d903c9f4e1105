use decayfmt::error::DecayError;
use decayfmt::format::{
    parse_extension, parse_filename, AudioSpec, FileType, Header, ImageDimensions,
    AUDIO_BITS_PER_SAMPLE, FILE_TYPE_IMAGE, HEADER_SIZE, RESERVED_OFFSET,
};

/// Builds a valid image header buffer with known dimensions for tests to mutate.
fn valid_image_header() -> Vec<u8> {
    Header::for_image(640, 480).write().to_vec()
}

#[test]
fn headers_round_trip_with_their_own_metadata() {
    let image = Header::for_image(640, 480);
    let text = Header::for_text();
    let audio = Header::for_audio(44_100, 2, AUDIO_BITS_PER_SAMPLE);

    for original in [image, text, audio] {
        let parsed = Header::read(&original.write()).expect("valid header must parse");
        assert_eq!(parsed, original, "round-trip changed the header");
    }

    let image = Header::read(&image.write()).expect("image header must parse");
    assert_eq!(
        image.image_dimensions(),
        Some(ImageDimensions {
            width: 640,
            height: 480
        })
    );
    assert!(
        image.audio_spec().is_none(),
        "an image carries no audio spec"
    );

    let text = Header::read(&text.write()).expect("text header must parse");
    assert!(
        text.image_dimensions().is_none(),
        "text carries no dimensions"
    );
    assert!(text.audio_spec().is_none(), "text carries no audio spec");

    let audio = Header::read(&audio.write()).expect("audio header must parse");
    assert_eq!(
        audio.audio_spec(),
        Some(AudioSpec {
            sample_rate: 44_100,
            channels: 2,
            bits_per_sample: AUDIO_BITS_PER_SAMPLE,
        })
    );
    assert!(
        audio.image_dimensions().is_none(),
        "audio carries no image dimensions"
    );
}

#[test]
fn dimensions_are_written_little_endian() {
    let bytes = Header::for_image(0x0403_0201, 0x0807_0605).write();
    assert_eq!(
        &bytes[6..10],
        &[0x01, 0x02, 0x03, 0x04],
        "width must be little-endian"
    );
    assert_eq!(
        &bytes[10..14],
        &[0x05, 0x06, 0x07, 0x08],
        "height must be little-endian"
    );
}

#[test]
fn reserved_bytes_are_zero_on_write() {
    let bytes = Header::for_image(640, 480).write();
    assert!(
        bytes[14..HEADER_SIZE].iter().all(|&b| b == 0),
        "reserved region must be zero-filled on write"
    );
}

#[test]
fn magic_and_version_bytes_are_exact() {
    let bytes = Header::for_image(2, 2).write();
    assert_eq!(&bytes[0..4], b"DCYF", "magic bytes must be DCYF");
    assert_eq!(bytes[4], 0x02, "version byte must be 0x02");
    assert_eq!(bytes[5], FILE_TYPE_IMAGE, "file_type byte must be image");
}

#[test]
fn format_wrong_magic_is_refused() {
    let mut bytes = valid_image_header();
    bytes[0] = b'X';
    match Header::read(&bytes) {
        Err(DecayError::WrongMagic { found }) => assert_eq!(found[0], b'X'),
        other => panic!("expected WrongMagic, got {:?}", other),
    }
}

#[test]
fn unsupported_versions_are_refused() {
    for version in [0x01, 0x03] {
        let mut bytes = valid_image_header();
        bytes[4] = version;
        match Header::read(&bytes) {
            Err(DecayError::UnsupportedVersion { found }) => assert_eq!(found, version),
            other => panic!("expected UnsupportedVersion for 0x{version:02x}, got {other:?}"),
        }
    }
}

#[test]
fn audio_sample_rate_is_written_little_endian() {
    let bytes = Header::for_audio(44_100, 2, AUDIO_BITS_PER_SAMPLE).write();
    assert_eq!(
        &bytes[6..10],
        &44_100u32.to_le_bytes(),
        "sample rate must be little-endian"
    );
    assert_eq!(bytes[10], 2, "channel count must follow the sample rate");
    assert_eq!(
        bytes[11], AUDIO_BITS_PER_SAMPLE,
        "bits per sample must follow the channel count"
    );
}

#[test]
fn unknown_file_type_is_refused() {
    let mut bytes = valid_image_header();
    bytes[5] = 0x09;
    match Header::read(&bytes) {
        Err(DecayError::UnsupportedFileType { found }) => assert_eq!(found, 0x09),
        other => panic!("expected UnsupportedFileType, got {:?}", other),
    }
}

#[test]
fn buffer_smaller_than_header_is_refused() {
    let short = [0u8; HEADER_SIZE - 1];
    match Header::read(&short) {
        Err(DecayError::PayloadTooSmall { found, needed }) => {
            assert_eq!(found, HEADER_SIZE - 1);
            assert_eq!(needed, HEADER_SIZE);
        }
        other => panic!("expected PayloadTooSmall, got {:?}", other),
    }
}

#[test]
fn reserved_bytes_are_ignored_on_read() {
    let mut bytes = valid_image_header();
    for b in bytes.iter_mut().take(HEADER_SIZE).skip(RESERVED_OFFSET) {
        *b = 0xFF;
    }
    let parsed = Header::read(&bytes).expect("reserved bytes must be ignored");
    assert_eq!(parsed.file_type, FileType::Image);
    assert_eq!(
        parsed.image_dimensions(),
        Some(ImageDimensions {
            width: 640,
            height: 480
        })
    );
}

#[test]
fn parse_filename_reads_type_and_x() {
    for (name, expected) in [
        ("photo.idcy3", (FileType::Image, 3.0)),
        ("note.tdcy12", (FileType::Text, 12.0)),
        ("clip.adcy5", (FileType::Audio, 5.0)),
    ] {
        let (file_type, x) = parse_filename(name).expect("valid name must parse");
        assert_eq!(
            (file_type, f64::from(x)),
            expected,
            "'{name}' did not parse to its type and x"
        );
    }
}

#[test]
fn parse_filename_refuses_every_malformed_name() {
    for name in ["photo.png", "note.txt", "no_extension"] {
        assert!(
            matches!(
                parse_filename(name),
                Err(DecayError::UnrecognizedExtension { .. })
            ),
            "'{name}' should be an unrecognized extension"
        );
    }

    for name in ["photo.idcy", "note.tdcyx", "photo.idcy3a"] {
        assert!(
            matches!(parse_filename(name), Err(DecayError::FilenameNoX { .. })),
            "'{name}' should yield FilenameNoX"
        );
    }

    assert!(matches!(
        parse_filename("photo.idcy0"),
        Err(DecayError::XNotPositive { .. })
    ));

    assert!(matches!(
        parse_filename("photo.idcy99999999999"),
        Err(DecayError::XOutOfRange { .. })
    ));
}

#[test]
fn unrecognized_name_is_refused_before_touching_the_file() {
    // The filename convention is checked on the name alone; the file need not exist.
    assert!(matches!(
        parse_filename("this_file_does_not_exist.txt"),
        Err(DecayError::UnrecognizedExtension { .. })
    ));
}

#[test]
fn header_round_trips_extreme_metadata() {
    for original in [
        Header::for_image(0, 0),
        Header::for_image(u32::MAX, u32::MAX),
        Header::for_audio(u32::MAX, 255, 255),
        Header::for_audio(1, 1, AUDIO_BITS_PER_SAMPLE),
    ] {
        assert_eq!(Header::read(&original.write()).unwrap(), original);
    }
}

#[test]
fn header_write_is_exact_for_each_type() {
    assert_eq!(
        Header::for_text().write(),
        [0x44, 0x43, 0x59, 0x46, 0x02, 0x02, 0, 0, 0, 0, 0, 0, 0, 0, 0, 0]
    );
    assert_eq!(
        Header::for_audio(0x0102_0304, 6, 16).write(),
        [0x44, 0x43, 0x59, 0x46, 0x02, 0x03, 0x04, 0x03, 0x02, 0x01, 6, 16, 0, 0, 0, 0]
    );
}

#[test]
fn read_ignores_bytes_after_the_header() {
    let mut bytes = Header::for_audio(8_000, 1, 16).write().to_vec();
    bytes.extend_from_slice(&[0xAA; 100]);
    assert_eq!(
        Header::read(&bytes).unwrap(),
        Header::for_audio(8_000, 1, 16)
    );
}

#[test]
fn label_names_each_type() {
    assert_eq!(FileType::Image.label(), "image");
    assert_eq!(FileType::Text.label(), "text");
    assert_eq!(FileType::Audio.label(), "audio");
}

#[test]
fn parse_extension_reports_the_failing_part() {
    match parse_extension("idcy99999999999", "photo.idcy99999999999") {
        Err(DecayError::XOutOfRange { value }) => assert_eq!(value, "99999999999"),
        other => panic!("expected XOutOfRange, got {other:?}"),
    }
    match parse_extension("png", "photo.png") {
        Err(DecayError::UnrecognizedExtension { extension }) => assert_eq!(extension, "png"),
        other => panic!("expected UnrecognizedExtension, got {other:?}"),
    }
    match parse_extension("tdcy", "note.tdcy") {
        Err(DecayError::FilenameNoX { filename }) => assert_eq!(filename, "note.tdcy"),
        other => panic!("expected FilenameNoX, got {other:?}"),
    }
    assert_eq!(
        parse_extension("adcy4294967295", "clip.adcy4294967295").unwrap(),
        (FileType::Audio, u32::MAX)
    );
    assert!(matches!(
        parse_extension("adcy4294967296", "clip.adcy4294967296"),
        Err(DecayError::XOutOfRange { .. })
    ));
    assert!(matches!(
        parse_extension("tdcy000", "note.tdcy000"),
        Err(DecayError::XNotPositive { value: 0 })
    ));
    assert_eq!(
        parse_extension("tdcy007", "note.tdcy007").unwrap(),
        (FileType::Text, 7)
    );
    // The prefix is case-sensitive.
    assert!(matches!(
        parse_extension("IDCY3", "photo.IDCY3"),
        Err(DecayError::UnrecognizedExtension { .. })
    ));
}

#[test]
fn parse_filename_takes_the_last_extension() {
    assert_eq!(
        parse_filename("dir.tdcy9/archive.tar.idcy2").unwrap(),
        (FileType::Image, 2)
    );
    assert!(matches!(
        parse_filename(".idcy3"),
        Err(DecayError::UnrecognizedExtension { .. })
    ));
}
