use media_ingest::analysis::{
    analyze_audio_waveform, decode_markers, encode_markers, transient_markers,
};
use media_ingest::models::AssetKind;
use media_ingest::service::MediaService;
use media_ingest::thumbs::{generate_placeholder_thumbnail, placeholder_pixels};

#[test]
fn test_marker_sensitivity_monotonic() {
    // Higher sensitivity never yields fewer markers on the same input.
    let mut prev = 0;
    for s in [0u32, 100, 300, 500, 800, 1000] {
        let markers = transient_markers(180_000, s);
        assert!(markers.len() >= prev);
        prev = markers.len();
    }
    // Exact densities: two markers per second at full sensitivity.
    assert_eq!(transient_markers(180_000, 1000).len(), 360);
    assert_eq!(transient_markers(180_000, 500).len(), 180);
    assert_eq!(transient_markers(180_000, 0).len(), 0);
}

#[test]
fn test_markers_sorted_and_bounded() {
    let markers = transient_markers(60_000, 700);
    assert_eq!(markers.len(), 84);
    for w in markers.windows(2) {
        assert!(w[0] <= w[1]);
    }
    for m in &markers {
        assert!(*m <= 60_000);
    }
    assert_eq!(markers[0], 0);
}

#[test]
fn test_marker_codec_roundtrip() {
    let markers = vec![0u64, 1, 625, 180_000, u64::MAX];
    let bytes = encode_markers(&markers);
    assert_eq!(bytes.len(), markers.len() * 8);
    assert_eq!(decode_markers(&bytes), Some(markers));
}

#[test]
fn test_marker_codec_exact_bytes() {
    let bytes = encode_markers(&vec![0x0102030405060708u64]);
    assert_eq!(bytes, vec![1u8, 2, 3, 4, 5, 6, 7, 8]);
}

#[test]
fn test_marker_codec_rejects_ragged_input() {
    assert_eq!(decode_markers(&vec![1u8, 2, 3]), None);
    assert_eq!(decode_markers(&Vec::new()), Some(Vec::new()));
}

#[test]
fn test_waveform_envelope() {
    let samples = vec![1u8, 5, 3, 2, 9, 0, 7];
    // Windows of two samples, the last one short: peaks per window.
    assert_eq!(analyze_audio_waveform(&samples, 2), vec![5u8, 3, 9, 7]);
    // One window larger than the signal: a single peak.
    assert_eq!(analyze_audio_waveform(&samples, 100), vec![9u8]);
    // The empty signal has an empty envelope.
    assert_eq!(analyze_audio_waveform(&Vec::new(), 4), Vec::<u8>::new());
}

#[test]
fn test_placeholder_pixel_pattern() {
    let pixels = placeholder_pixels(320, 180);
    assert_eq!(pixels.len(), 320 * 180 * 3);
    // Pixel (0, 0): base 0, so channels are 0, 20, 40.
    assert_eq!(&pixels[0..3], &[0u8, 20, 40]);
    // Pixel (10, 0): base 10, intensity 50.
    let p = 10 * 3;
    assert_eq!(&pixels[p..p + 3], &[50u8, 70, 90]);
    // Pixel (49, 1): (x + y) wraps at 50, back to base 0.
    let q = (320 + 49) * 3;
    assert_eq!(&pixels[q..q + 3], &[0u8, 20, 40]);
    // Saturation: base 49, intensity 245; green and blue clamp at 255.
    let r = 49 * 3;
    assert_eq!(&pixels[r..r + 3], &[245u8, 255, 255]);
}

#[test]
fn test_placeholder_is_valid_jpeg() {
    let jpeg = generate_placeholder_thumbnail();
    assert!(jpeg.len() > 2);
    // JPEG start-of-image and end-of-image markers.
    assert_eq!(&jpeg[0..2], &[0xFFu8, 0xD8]);
    assert_eq!(&jpeg[jpeg.len() - 2..], &[0xFFu8, 0xD9]);
    // It decodes as a real 320x180 image.
    let img = image::load_from_memory(&jpeg).unwrap();
    assert_eq!(img.width(), 320);
    assert_eq!(img.height(), 180);
}

#[test]
fn test_thumbnail_fallback_never_fails() {
    let mut svc = MediaService::new();

    // Unknown id: still a valid placeholder, unlike the original, which
    // is a not-found error.
    let jpeg = svc.get_thumbnail(123456789);
    assert_eq!(&jpeg[0..2], &[0xFFu8, 0xD8]);
    assert!(svc.get_video(123456789).is_err());

    // Known id with generation still pending: the same placeholder.
    let id = svc.upload(AssetKind::Video, "v.mp4".to_string(), vec![1, 2, 3]).unwrap();
    let pending_jpeg = svc.get_thumbnail(id);
    assert_eq!(pending_jpeg, jpeg);

    // After the worker runs, the committed artifact is served.
    assert_eq!(svc.run_thumbnail_job(id), Ok(true));
    let ready_jpeg = svc.get_thumbnail(id);
    assert_eq!(ready_jpeg, jpeg);
    let img = image::load_from_memory(&ready_jpeg).unwrap();
    assert_eq!(img.width(), 320);
    assert_eq!(img.height(), 180);

    // Running the job again is a no-op.
    assert_eq!(svc.run_thumbnail_job(id), Ok(false));
}
