use static_compress::algorithm::{CompressionAlgorithm, CompressionFormat, Encoder};
use static_compress::error::{Error, Setting};
use static_compress::params::{trim_extension, Parameters};

#[test]
fn defaults_are_gzip_one_thread() {
    let p = Parameters::new(None, None, None, None, true, false).unwrap();
    assert_eq!(p.compressor, CompressionAlgorithm::GZip);
    assert_eq!(p.extension, "gz");
    assert_eq!(p.quality, None);
    assert_eq!(p.threads, 1);
    assert!(p.show_summary);
    assert!(!p.show_progress);
}

#[test]
fn explicit_settings_are_taken() {
    let p = Parameters::new(Some("brotli"), Some(" .BR.\n"), Some("+11"), Some("8"), false, true)
        .unwrap();
    assert_eq!(p.compressor, CompressionAlgorithm::Brotli);
    assert_eq!(p.extension, "BR");
    assert_eq!(p.quality, Some(11));
    assert_eq!(p.threads, 8);
}

#[test]
fn out_of_range_quality_aborts_before_work() {
    let r = Parameters::new(Some("br"), None, Some("200"), None, true, true);
    assert!(matches!(r, Err(Error::InvalidParameterValue(Setting::Quality))));
    let r = Parameters::new(Some("gzip"), None, Some("10"), None, true, true);
    assert!(matches!(r, Err(Error::InvalidParameterValue(Setting::Quality))));
    let r = Parameters::new(Some("zopfli"), None, Some("1"), None, true, true);
    assert!(matches!(r, Err(Error::InvalidParameterValue(Setting::Quality))));
    let r = Parameters::new(None, None, Some("256"), None, true, true);
    assert!(matches!(r, Err(Error::InvalidParameterValue(Setting::Quality))));
    let r = Parameters::new(None, None, Some("-1"), None, true, true);
    assert!(matches!(r, Err(Error::InvalidParameterValue(Setting::Quality))));
}

#[test]
fn bad_compressor_and_threads_are_refused() {
    let r = Parameters::new(Some("lzma"), None, None, None, true, true);
    assert!(matches!(r, Err(Error::InvalidParameterValue(Setting::Compressor))));
    let r = Parameters::new(None, None, None, Some("0"), true, true);
    assert!(matches!(r, Err(Error::InvalidParameterValue(Setting::Threads))));
    let r = Parameters::new(None, None, None, Some("four"), true, true);
    assert!(matches!(r, Err(Error::InvalidParameterValue(Setting::Threads))));
    let r = Parameters::new(None, None, None, Some(""), true, true);
    assert!(matches!(r, Err(Error::InvalidParameterValue(Setting::Threads))));
    let r = Parameters::new(Some("nope"), None, Some("999"), Some("0"), true, true);
    assert!(matches!(r, Err(Error::InvalidParameterValue(Setting::Compressor))));
}

#[test]
fn algorithm_names_and_extensions() {
    assert_eq!(CompressionAlgorithm::from_str("gz"), Ok(CompressionAlgorithm::GZip));
    assert_eq!(CompressionAlgorithm::from_str("gzip"), Ok(CompressionAlgorithm::GZip));
    assert_eq!(CompressionAlgorithm::from_str("br"), Ok(CompressionAlgorithm::Brotli));
    assert_eq!(CompressionAlgorithm::from_str("webp"), Ok(CompressionAlgorithm::WebP));
    assert_eq!(CompressionAlgorithm::from_str("zopfli"), Ok(CompressionAlgorithm::Zopfli));
    assert_eq!(
        CompressionAlgorithm::from_str("GZ"),
        Err(Error::InvalidParameterValue(Setting::Compressor))
    );
    assert_eq!(CompressionAlgorithm::Brotli.extension(), "br");
    assert_eq!(CompressionAlgorithm::GZip.extension(), "gz");
    assert_eq!(CompressionAlgorithm::WebP.extension(), "webp");
    assert_eq!(CompressionAlgorithm::Zopfli.extension(), "gz");
    let p = Parameters::new(Some("webp"), None, None, None, true, true).unwrap();
    assert_eq!(p.extension, "webp");
}

#[test]
fn quality_maps_to_encoder_settings() {
    let gz = CompressionAlgorithm::GZip;
    assert_eq!(gz.encoder(None), Ok(Encoder::Gzip(6)));
    assert_eq!(gz.encoder(Some(0)), Ok(Encoder::Gzip(0)));
    assert_eq!(gz.encoder(Some(1)), Ok(Encoder::Gzip(1)));
    assert_eq!(gz.encoder(Some(4)), Ok(Encoder::Gzip(6)));
    assert_eq!(gz.encoder(Some(7)), Ok(Encoder::Gzip(9)));
    assert_eq!(gz.encoder(Some(9)), Ok(Encoder::Gzip(9)));
    let br = CompressionAlgorithm::Brotli;
    assert_eq!(br.encoder(None), Ok(Encoder::Brotli(6)));
    assert_eq!(br.encoder(Some(11)), Ok(Encoder::Brotli(11)));
    assert_eq!(br.encoder(Some(12)), Err(Error::InvalidParameterValue(Setting::Quality)));
    let wp = CompressionAlgorithm::WebP;
    assert_eq!(wp.encoder(None), Ok(Encoder::WebP(90)));
    assert_eq!(wp.encoder(Some(100)), Ok(Encoder::WebP(100)));
    assert_eq!(wp.encoder(Some(101)), Err(Error::InvalidParameterValue(Setting::Quality)));
    assert_eq!(CompressionAlgorithm::Zopfli.encoder(None), Ok(Encoder::Zopfli));
}

#[test]
fn trim_extension_strips_padding() {
    assert_eq!(trim_extension("..gz.."), "gz");
    assert_eq!(trim_extension("\u{3000}\tbr\u{85}"), "br");
    assert_eq!(trim_extension("tar.gz"), "tar.gz");
    assert_eq!(trim_extension("..."), "");
    assert_eq!(trim_extension(""), "");
}
