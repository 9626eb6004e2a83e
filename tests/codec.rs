use static_compress::algorithm::{CompressionAlgorithm, Encoder, FileCompressor};
use static_compress::error::{Error, Setting};

fn sample() -> Vec<u8> {
    b"static compression static compression static compression\n".repeat(40)
}

#[test]
fn gzip_output_is_a_gzip_stream() {
    let data = sample();
    let out = Encoder::Gzip(9).encode(&data).unwrap();
    assert_eq!(&out[0..3], &[0x1f, 0x8b, 8]);
    assert!(out.len() < data.len());
    let stored = Encoder::Gzip(0).encode(&data).unwrap();
    assert!(stored.len() > data.len());
}

#[test]
fn brotli_output_is_smaller() {
    let data = sample();
    let out = Encoder::Brotli(11).encode(&data).unwrap();
    assert_ne!(out, data);
    assert!(out.len() < data.len() / 4);
}

#[test]
fn zopfli_output_is_a_gzip_stream() {
    let data = sample();
    let out = Encoder::Zopfli.encode(&data).unwrap();
    assert_eq!(&out[0..2], &[0x1f, 0x8b]);
    assert!(out.len() < data.len());
}

#[test]
fn encoders_are_deterministic() {
    let data = sample();
    assert_eq!(Encoder::Gzip(6).encode(&data), Encoder::Gzip(6).encode(&data));
    assert_eq!(Encoder::Brotli(5).encode(&data), Encoder::Brotli(5).encode(&data));
}

#[test]
fn webp_needs_the_external_encoder() {
    assert!(Encoder::WebP(90).is_external());
    assert!(!Encoder::Gzip(6).is_external());
    assert_eq!(Encoder::WebP(90).encode(&sample()), Err(Error::ExternalEncoder));
    assert_eq!(
        CompressionAlgorithm::WebP.compress(&sample(), None),
        Err(Error::ExternalEncoder)
    );
}

#[test]
fn compress_checks_quality_first() {
    let data = sample();
    assert_eq!(
        CompressionAlgorithm::Brotli.compress(&data, Some(200)),
        Err(Error::InvalidParameterValue(Setting::Quality))
    );
    assert_eq!(
        CompressionAlgorithm::Zopfli.compress(&data, Some(3)),
        Err(Error::InvalidParameterValue(Setting::Quality))
    );
    let out = CompressionAlgorithm::GZip.compress(&data, Some(8)).unwrap();
    assert_eq!(Ok(out), Encoder::Gzip(9).encode(&data));
}

#[test]
fn out_of_range_settings_are_refused() {
    let data = sample();
    let refused = Err(Error::InvalidParameterValue(Setting::Quality));
    assert_eq!(Encoder::Gzip(10).encode(&data), refused);
    assert_eq!(Encoder::Brotli(12).encode(&data), refused);
    assert_eq!(Encoder::WebP(101).encode(&data), refused);
}
