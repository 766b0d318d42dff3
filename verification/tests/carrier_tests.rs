use safechat::carrier::{
    bits_from_bytes, blind_counts, bytes_from_bits, changed_lsb_count, check_png_size, classify,
    embed_png, lsb_bits, read_png, rgba_image, write_png, BitCounts, CarrierAdapter, CarrierError,
    Colors, DecodedPng, PngCarrier, RgbaImage, Verdict,
};

fn plain(width: u32, height: u32, value: u8) -> RgbaImage {
    RgbaImage {
        width,
        height,
        pixels: vec![value; (width * height * 4) as usize],
    }
}

fn balance(counts: &BitCounts) -> f64 {
    counts.ones as f64 / counts.length as f64
}

fn transition_rate(counts: &BitCounts) -> f64 {
    counts.transitions as f64 / (counts.length - 1) as f64
}

#[test]
fn detector_detects_lsb_changes() {
    let reference = RgbaImage {
        width: 32,
        height: 32,
        pixels: vec![127; 32 * 32 * 4],
    };
    let mut candidate = RgbaImage {
        width: reference.width,
        height: reference.height,
        pixels: reference.pixels.clone(),
    };
    PngCarrier.embed(&mut candidate, b"detector test").unwrap();
    assert!(changed_lsb_count(&reference, &candidate).unwrap() > 0);
    assert_eq!(changed_lsb_count(&reference, &reference).unwrap(), 0);
}

#[test]
fn blind_features_are_bounded() {
    let image = RgbaImage {
        width: 32,
        height: 32,
        pixels: vec![127; 32 * 32 * 4],
    };
    let (prefix, suffix) = blind_counts(&image, 1024).unwrap();
    let prefix_balance = balance(&prefix);
    let suffix_balance = balance(&suffix);
    let score = (prefix_balance - suffix_balance).abs()
        + (transition_rate(&prefix) - transition_rate(&suffix)).abs();
    assert!((0.0..=1.0).contains(&prefix_balance));
    assert!((0.0..=1.0).contains(&suffix_balance));
    assert!(score.is_finite());
}

#[test]
fn blind_counts_are_exact() {
    let mut image = plain(4, 4, 0);
    image.pixels[0] = 1;
    image.pixels[2] = 1;
    let (prefix, suffix) = blind_counts(&image, 16).unwrap();
    assert_eq!(prefix.length, 16);
    assert_eq!(prefix.ones, 2);
    assert_eq!(prefix.transitions, 3);
    assert_eq!(suffix.length, 32);
    assert_eq!(suffix.ones, 0);
    assert_eq!(
        blind_counts(&image, 15).unwrap_err(),
        CarrierError::InvalidWindow
    );
    assert_eq!(
        blind_counts(&image, 48).unwrap_err(),
        CarrierError::InvalidWindow
    );
}

#[test]
fn bits_and_bytes_round_trip() {
    assert_eq!(bits_from_bytes(&[0b1010_0001]), [1, 0, 1, 0, 0, 0, 0, 1]);
    let bytes = [0, 255, 18];
    assert_eq!(bytes_from_bits(&bits_from_bytes(&bytes)), bytes);
}

#[test]
fn an_embedded_payload_is_extracted() {
    let mut image = plain(8, 8, 200);
    let carrier = PngCarrier;
    let capacity = carrier.capacity_bytes(&image);
    assert_eq!(capacity, 8 * 8 * 3 / 8);
    carrier.embed(&mut image, b"hello").unwrap();
    assert_eq!(carrier.extract(&image, 5).unwrap(), b"hello");
    assert_eq!(
        carrier.extract(&image, capacity + 1).unwrap_err(),
        CarrierError::LengthTooLarge
    );
    assert_eq!(
        carrier
            .embed(&mut image, &vec![0; capacity + 1])
            .unwrap_err(),
        CarrierError::PayloadTooLarge {
            needed: capacity + 1,
            capacity
        }
    );
}

#[test]
fn embedding_changes_only_the_low_bits() {
    let before = plain(8, 8, 200);
    let mut after = plain(8, 8, 200);
    PngCarrier.embed(&mut after, &[0xff]).unwrap();
    for (index, (old, new)) in before.pixels.iter().zip(after.pixels.iter()).enumerate() {
        if index % 4 == 3 {
            assert_eq!(old, new);
        }
        assert_eq!(old & 0xfe, new & 0xfe);
    }
    assert_eq!(changed_lsb_count(&before, &after).unwrap(), 8);
    assert_eq!(lsb_bits(&after)[..9], [1, 1, 1, 1, 1, 1, 1, 1, 0]);
    assert_eq!(
        changed_lsb_count(&before, &plain(4, 16, 200)).unwrap_err(),
        CarrierError::DimensionMismatch
    );
}

#[test]
fn images_are_written_and_read() {
    let mut image = plain(4, 2, 9);
    image.pixels[5] = 77;
    let file = write_png(&image).unwrap();
    assert_eq!(&file[1..4], b"PNG");
    assert!(check_png_size(&file));
    let read = read_png(&file).unwrap();
    assert_eq!(read.width, 4);
    assert_eq!(read.height, 2);
    assert_eq!(read.pixels, image.pixels);

    let stego = embed_png(&file, b"x").unwrap();
    assert!(check_png_size(&stego));
    let read = read_png(&stego).unwrap();
    assert_eq!(PngCarrier.extract(&read, 1).unwrap(), b"x");
    assert!(check_png_size(b"not a png"));
    assert_eq!(
        read_png(b"not a png").unwrap_err(),
        CarrierError::InvalidPng
    );
}

#[test]
fn opaque_images_get_an_alpha_channel() {
    let image = rgba_image(DecodedPng {
        width: 1,
        height: 1,
        colors: Colors::Rgb,
        samples: vec![1, 2, 3],
    })
    .unwrap();
    assert_eq!(image.pixels, vec![1, 2, 3, 255]);
    assert_eq!(
        rgba_image(DecodedPng {
            width: 1,
            height: 1,
            colors: Colors::Other,
            samples: vec![1],
        })
        .unwrap_err(),
        CarrierError::UnsupportedColor
    );
}

#[test]
fn verdicts_are_counted() {
    let verdict = |encoded: bool, flagged: bool| Verdict { encoded, flagged };
    let counts = classify(&[
        verdict(true, true),
        verdict(true, false),
        verdict(false, true),
        verdict(false, true),
    ]);
    assert_eq!(counts.true_positive, 1);
    assert_eq!(counts.false_negative, 1);
    assert_eq!(counts.false_positive, 2);
    assert_eq!(counts.true_negative, 0);
}
