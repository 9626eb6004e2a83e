use vstd::prelude::*;
use crate::error::{Error, Setting};
use crate::text::same_text;

verus! {

/// What flate2's gzip encoder produces for `data` at compression `level`.
pub uninterp spec fn gzip_of(level: u32, data: Seq<u8>) -> Seq<u8>;

/// What the brotli encoder produces for `data` at `quality`.
pub uninterp spec fn brotli_of(quality: u32, data: Seq<u8>) -> Seq<u8>;

/// What zopfli produces, in gzip format with its default options, for `data`.
pub uninterp spec fn zopfli_of(data: Seq<u8>) -> Seq<u8>;

/// Relies on `flate2::write::GzEncoder` writing into a `Vec`: the gzip
/// stream of `data` at `level`. Writing into a `Vec` does not fail, so the
/// encoder reports no error.
#[verifier::external_body]
fn gzip_bytes(level: u32, data: &Vec<u8>) -> (r: Option<Vec<u8>>)
    requires
        level <= 9,
    ensures
        r is Some,
        r->0@ == gzip_of(level, data@),
{
    let mut encoder = flate2::write::GzEncoder::new(Vec::new(), flate2::Compression::new(level));
    match std::io::Write::write_all(&mut encoder, data) {
        Ok(()) => encoder.finish().ok(),
        Err(_) => None,
    }
}

/// Relies on `brotli2::write::BrotliEncoder` writing into a `Vec`: the brotli
/// stream of `data` at `quality`. Writing into a `Vec` does not fail, so the
/// encoder reports no error.
#[verifier::external_body]
fn brotli_bytes(quality: u32, data: &Vec<u8>) -> (r: Option<Vec<u8>>)
    requires
        quality <= 11,
    ensures
        r is Some,
        r->0@ == brotli_of(quality, data@),
{
    let mut encoder = brotli2::write::BrotliEncoder::new(Vec::new(), quality);
    match std::io::Write::write_all(&mut encoder, data) {
        Ok(()) => encoder.finish().ok(),
        Err(_) => None,
    }
}

/// Relies on `zopfli::compress` with default options and gzip output into a
/// `Vec`, which does not fail.
#[verifier::external_body]
fn zopfli_bytes(data: &Vec<u8>) -> (r: Option<Vec<u8>>)
    ensures
        r is Some,
        r->0@ == zopfli_of(data@),
{
    let mut out: Vec<u8> = Vec::new();
    match zopfli::compress(zopfli::Options::default(), zopfli::Format::Gzip, data.as_slice(), &mut out) {
        Ok(()) => Some(out),
        Err(_) => None,
    }
}

#[derive(Clone, Copy, Debug, PartialEq, Eq, Structural)]
pub enum CompressionAlgorithm {
    Brotli,
    GZip,
    WebP,
    Zopfli,
}

/// A codec with its validated settings.
#[derive(Clone, Copy, Debug, PartialEq, Eq, Structural)]
pub enum Encoder {
    /// gzip at a level of 0 (store), 1 (fast), 6 (default) or 9 (best).
    Gzip(u32),
    /// brotli at a quality from 0 to 11.
    Brotli(u32),
    /// zopfli with its default options; it takes no quality.
    Zopfli,
    /// The external WebP encoder at a quality from 0 to 100.
    WebP(u8),
}

/// The default output extension of each algorithm.
pub open spec fn extension_spec(a: CompressionAlgorithm) -> Seq<char> {
    match a {
        CompressionAlgorithm::Brotli => "br"@,
        CompressionAlgorithm::GZip => "gz"@,
        CompressionAlgorithm::WebP => "webp"@,
        CompressionAlgorithm::Zopfli => "gz"@,
    }
}

/// The algorithm that a name selects.
pub open spec fn algorithm_named(s: Seq<char>) -> Result<CompressionAlgorithm, Error> {
    if s == "gz"@ || s == "gzip"@ {
        Ok(CompressionAlgorithm::GZip)
    } else if s == "br"@ || s == "brotli"@ {
        Ok(CompressionAlgorithm::Brotli)
    } else if s == "webp"@ {
        Ok(CompressionAlgorithm::WebP)
    } else if s == "zopfli"@ {
        Ok(CompressionAlgorithm::Zopfli)
    } else {
        Err(Error::InvalidParameterValue(Setting::Compressor))
    }
}

/// The settings that an algorithm uses for a requested quality: gzip maps
/// 0..=9 onto its store, fast, default and best levels; brotli takes 0..=11
/// as it is; WebP takes 0..=100; zopfli takes none. Anything else is refused.
pub open spec fn encoder_for(a: CompressionAlgorithm, quality: Option<u8>) -> Result<Encoder, Error> {
    let refused = Err(Error::InvalidParameterValue(Setting::Quality));
    match a {
        CompressionAlgorithm::GZip => match quality {
            None => Ok(Encoder::Gzip(6)),
            Some(q) => if q == 0 {
                Ok(Encoder::Gzip(0))
            } else if q == 1 {
                Ok(Encoder::Gzip(1))
            } else if q <= 6 {
                Ok(Encoder::Gzip(6))
            } else if q <= 9 {
                Ok(Encoder::Gzip(9))
            } else {
                refused
            },
        },
        CompressionAlgorithm::Brotli => match quality {
            None => Ok(Encoder::Brotli(6)),
            Some(q) => if q <= 11 {
                Ok(Encoder::Brotli(q as u32))
            } else {
                refused
            },
        },
        CompressionAlgorithm::WebP => match quality {
            None => Ok(Encoder::WebP(90)),
            Some(q) => if q <= 100 {
                Ok(Encoder::WebP(q))
            } else {
                refused
            },
        },
        CompressionAlgorithm::Zopfli => match quality {
            None => Ok(Encoder::Zopfli),
            Some(_) => refused,
        },
    }
}

/// What an encoder turns `data` into; `None` for the external WebP encoder,
/// which works on files outside the library.
pub open spec fn output_of(e: Encoder, data: Seq<u8>) -> Option<Seq<u8>> {
    match e {
        Encoder::Gzip(level) => Some(gzip_of(level, data)),
        Encoder::Brotli(q) => Some(brotli_of(q, data)),
        Encoder::Zopfli => Some(zopfli_of(data)),
        Encoder::WebP(_) => None,
    }
}

/// Settings that every encoder built by `encoder_for` satisfies.
pub open spec fn encoder_in_range(e: Encoder) -> bool {
    match e {
        Encoder::Gzip(level) => level <= 9,
        Encoder::Brotli(q) => q <= 11,
        Encoder::Zopfli => true,
        Encoder::WebP(q) => q <= 100,
    }
}

pub trait CompressionFormat {
    fn extension(&self) -> &'static str;
}

impl CompressionFormat for CompressionAlgorithm {
    fn extension(&self) -> (r: &'static str)
        ensures
            r@ == extension_spec(*self),
    {
        match self {
            CompressionAlgorithm::Brotli => "br",
            CompressionAlgorithm::GZip => "gz",
            CompressionAlgorithm::WebP => "webp",
            CompressionAlgorithm::Zopfli => "gz",
        }
    }
}

impl CompressionAlgorithm {
    /// The algorithm named by `s`: `gz` or `gzip`, `br` or `brotli`, `webp`,
    /// `zopfli`.
    pub fn from_str(s: &str) -> (r: Result<CompressionAlgorithm, Error>)
        ensures
            r == algorithm_named(s@),
    {
        if same_text(s, "gz") || same_text(s, "gzip") {
            Ok(CompressionAlgorithm::GZip)
        } else if same_text(s, "br") || same_text(s, "brotli") {
            Ok(CompressionAlgorithm::Brotli)
        } else if same_text(s, "webp") {
            Ok(CompressionAlgorithm::WebP)
        } else if same_text(s, "zopfli") {
            Ok(CompressionAlgorithm::Zopfli)
        } else {
            Err(Error::InvalidParameterValue(Setting::Compressor))
        }
    }

    /// The settings for a requested quality, or the refusal of that quality.
    pub fn encoder(&self, quality: Option<u8>) -> (r: Result<Encoder, Error>)
        ensures
            r == encoder_for(*self, quality),
            r matches Ok(e) ==> encoder_in_range(e),
    {
        let refused = Err(Error::InvalidParameterValue(Setting::Quality));
        match self {
            CompressionAlgorithm::GZip => match quality {
                None => Ok(Encoder::Gzip(6)),
                Some(q) => {
                    if q == 0 {
                        Ok(Encoder::Gzip(0))
                    } else if q == 1 {
                        Ok(Encoder::Gzip(1))
                    } else if q <= 6 {
                        Ok(Encoder::Gzip(6))
                    } else if q <= 9 {
                        Ok(Encoder::Gzip(9))
                    } else {
                        refused
                    }
                },
            },
            CompressionAlgorithm::Brotli => match quality {
                None => Ok(Encoder::Brotli(6)),
                Some(q) => {
                    if q <= 11 {
                        Ok(Encoder::Brotli(q as u32))
                    } else {
                        refused
                    }
                },
            },
            CompressionAlgorithm::WebP => match quality {
                None => Ok(Encoder::WebP(90)),
                Some(q) => {
                    if q <= 100 {
                        Ok(Encoder::WebP(q))
                    } else {
                        refused
                    }
                },
            },
            CompressionAlgorithm::Zopfli => match quality {
                None => Ok(Encoder::Zopfli),
                Some(_) => refused,
            },
        }
    }
}

impl Encoder {
    /// Whether the encoder runs as a separate process on files rather than
    /// in the library on bytes.
    pub fn is_external(&self) -> (r: bool)
        ensures
            r == (output_of(*self, Seq::empty()) is None),
    {
        match self {
            Encoder::WebP(_) => true,
            _ => false,
        }
    }

    /// Compresses `data`. Settings out of their range give the quality
    /// error; the WebP encoder, which works on files, gives `ExternalEncoder`.
    pub fn encode(&self, data: &Vec<u8>) -> (r: Result<Vec<u8>, Error>)
        ensures
            !encoder_in_range(*self) ==> r == Err::<Vec<u8>, Error>(
                Error::InvalidParameterValue(Setting::Quality),
            ),
            encoder_in_range(*self) && output_of(*self, data@) is Some ==> (r matches Ok(v)
                && output_of(*self, data@) == Some(v@)),
            encoder_in_range(*self) && output_of(*self, data@) is None ==> r == Err::<Vec<u8>, Error>(
                Error::ExternalEncoder,
            ),
    {
        let out = match self {
            Encoder::Gzip(level) => {
                if *level > 9 {
                    return Err(Error::InvalidParameterValue(Setting::Quality));
                }
                gzip_bytes(*level, data)
            },
            Encoder::Brotli(q) => {
                if *q > 11 {
                    return Err(Error::InvalidParameterValue(Setting::Quality));
                }
                brotli_bytes(*q, data)
            },
            Encoder::Zopfli => zopfli_bytes(data),
            Encoder::WebP(q) => {
                if *q > 100 {
                    return Err(Error::InvalidParameterValue(Setting::Quality));
                }
                return Err(Error::ExternalEncoder);
            },
        };
        match out {
            Some(v) => Ok(v),
            None => Err(Error::EncoderFailure),
        }
    }
}

/// Compression of a file's contents with an optional quality setting.
pub trait FileCompressor {
    fn compress(&self, data: &Vec<u8>, quality: Option<u8>) -> Result<Vec<u8>, Error>;
}

impl FileCompressor for CompressionAlgorithm {
    /// Checks the quality for this algorithm, then encodes.
    fn compress(&self, data: &Vec<u8>, quality: Option<u8>) -> (r: Result<Vec<u8>, Error>)
        ensures
            match encoder_for(*self, quality) {
                Err(e) => r == Err::<Vec<u8>, Error>(e),
                Ok(enc) => match output_of(enc, data@) {
                    Some(out) => (r matches Ok(v) && v@ == out),
                    None => r == Err::<Vec<u8>, Error>(Error::ExternalEncoder),
                },
            },
    {
        let enc = self.encoder(quality)?;
        enc.encode(data)
    }
}

} // verus!
