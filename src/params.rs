use vstd::prelude::*;
use crate::algorithm::{
    algorithm_named, encoder_for, extension_spec, CompressionAlgorithm, CompressionFormat,
};
use crate::error::{Error, Setting};

verus! {

pub open spec fn is_digit(c: char) -> bool {
    48 <= (c as int) <= 57
}

/// The number that a string of decimal digits denotes.
pub open spec fn digits_value(s: Seq<char>) -> nat
    decreases s.len(),
{
    if s.len() == 0 {
        0
    } else {
        digits_value(s.drop_last()) * 10 + ((s.last() as int) - 48) as nat
    }
}

/// The digits of an unsigned number, after an optional `+`.
pub open spec fn unsigned_digits(s: Seq<char>) -> Seq<char> {
    if s.len() > 0 && s[0] == '+' {
        s.drop_first()
    } else {
        s
    }
}

/// The value of an unsigned decimal number no larger than `max`, as
/// `str::parse` reads one: an optional `+` and one or more digits.
pub open spec fn parsed_unsigned(s: Seq<char>, max: nat) -> Option<nat> {
    let d = unsigned_digits(s);
    if d.len() > 0 && (forall|i: int| 0 <= i < d.len() ==> is_digit(#[trigger] d[i]))
        && digits_value(d) <= max {
        Some(digits_value(d))
    } else {
        None
    }
}

proof fn lemma_digits_value_grows(u: Seq<char>, k: int)
    requires
        0 <= k <= u.len(),
        forall|i: int| 0 <= i < u.len() ==> is_digit(#[trigger] u[i]),
    ensures
        digits_value(u.take(k)) <= digits_value(u),
    decreases u.len() - k,
{
    if k < u.len() {
        lemma_digits_value_grows(u, k + 1);
        assert(u.take(k + 1).drop_last() =~= u.take(k));
    } else {
        assert(u.take(k) =~= u);
    }
}

fn parse_unsigned(s: &str, max: u64) -> (r: Option<u64>)
    ensures
        r == match parsed_unsigned(s@, max as nat) {
            Some(v) => Some(v as u64),
            None => None::<u64>,
        },
{
    let n = s.unicode_len();
    let start: usize = if n > 0 && s.get_char(0) == '+' {
        1
    } else {
        0
    };
    let ghost d = unsigned_digits(s@);
    assert(d =~= s@.skip(start as int));
    if start == n {
        return None;
    }
    let mut v: u64 = 0;
    let mut i: usize = start;
    assert(d.take(0) =~= Seq::<char>::empty());
    while i < n
        invariant
            n == s@.len(),
            start <= i <= n,
            d == s@.skip(start as int),
            d == unsigned_digits(s@),
            v as nat == digits_value(d.take(i - start)),
            v <= max,
            forall|k: int| 0 <= k < i - start ==> is_digit(#[trigger] d[k]),
        decreases n - i,
    {
        let c = s.get_char(i);
        assert(d[i - start] == c);
        if !((c as u32) >= 48 && (c as u32) <= 57) {
            assert(!is_digit(d[i - start]));
            return None;
        }
        let digit: u64 = ((c as u32) - 48) as u64;
        proof {
            assert(d.take(i - start + 1).drop_last() =~= d.take(i - start));
        }
        if digit > max || v > (max - digit) / 10 {
            proof {
                if digit <= max {
                    assert(v * 10 + digit > max) by (nonlinear_arith)
                        requires
                            v > (max - digit) / 10,
                            digit <= max,
                    ;
                }
                if forall|k: int| 0 <= k < d.len() ==> is_digit(#[trigger] d[k]) {
                    lemma_digits_value_grows(d, i - start + 1);
                }
            }
            return None;
        }
        proof {
            assert(v * 10 + digit <= max) by (nonlinear_arith)
                requires
                    v <= (max - digit) / 10,
                    digit <= max,
            ;
        }
        v = v * 10 + digit;
        i = i + 1;
    }
    assert(d.take(n - start) =~= d);
    Some(v)
}

/// Characters with Unicode's White_Space property, as `char::is_whitespace`
/// lists them.
pub open spec fn is_unicode_whitespace(c: char) -> bool {
    let v = c as int;
    ||| 9 <= v <= 13
    ||| v == 32
    ||| v == 0x85
    ||| v == 0xA0
    ||| v == 0x1680
    ||| 0x2000 <= v <= 0x200A
    ||| v == 0x2028
    ||| v == 0x2029
    ||| v == 0x202F
    ||| v == 0x205F
    ||| v == 0x3000
}

/// Control characters (general category Cc), as `char::is_control` gives them.
pub open spec fn is_control_char(c: char) -> bool {
    let v = c as int;
    v <= 0x1F || (0x7F <= v <= 0x9F)
}

/// Characters stripped from both ends of an extension.
pub open spec fn is_extension_padding(c: char) -> bool {
    is_unicode_whitespace(c) || is_control_char(c) || c == '.'
}

pub open spec fn trim_padding_start(s: Seq<char>) -> Seq<char>
    decreases s.len(),
{
    if s.len() > 0 && is_extension_padding(s[0]) {
        trim_padding_start(s.drop_first())
    } else {
        s
    }
}

pub open spec fn trim_padding_end(s: Seq<char>) -> Seq<char>
    decreases s.len(),
{
    if s.len() > 0 && is_extension_padding(s.last()) {
        trim_padding_end(s.drop_last())
    } else {
        s
    }
}

/// An extension with whitespace, control characters and dots removed from
/// both ends.
pub open spec fn trimmed_extension(s: Seq<char>) -> Seq<char> {
    trim_padding_end(trim_padding_start(s))
}

fn is_padding(c: char) -> (r: bool)
    ensures
        r == is_extension_padding(c),
{
    let v = c as u32;
    (9 <= v && v <= 13) || v == 32 || v == 0x85 || v == 0xA0 || v == 0x1680 || (0x2000 <= v && v
        <= 0x200A) || v == 0x2028 || v == 0x2029 || v == 0x202F || v == 0x205F || v == 0x3000
        || v <= 0x1F || (0x7F <= v && v <= 0x9F) || c == '.'
}

/// Removes whitespace, control characters and dots from both ends.
pub fn trim_extension(s: &str) -> (r: String)
    ensures
        r@ == trimmed_extension(s@),
{
    let n = s.unicode_len();
    let mut start: usize = 0;
    assert(s@.skip(0) =~= s@);
    while start < n && is_padding(s.get_char(start))
        invariant
            n == s@.len(),
            start <= n,
            trim_padding_start(s@) == trim_padding_start(s@.skip(start as int)),
        decreases n - start,
    {
        assert(s@.skip(start as int).drop_first() =~= s@.skip(start + 1));
        start = start + 1;
    }
    let ghost rest = s@.skip(start as int);
    assert(trim_padding_start(s@) == rest);
    let mut end: usize = n;
    assert(rest.take(n - start) =~= rest);
    while end > start && is_padding(s.get_char(end - 1))
        invariant
            n == s@.len(),
            start <= end <= n,
            rest == s@.skip(start as int),
            trim_padding_end(rest) == trim_padding_end(rest.take(end - start)),
        decreases end,
    {
        assert(rest.take(end - start).drop_last() =~= rest.take(end - start - 1));
        end = end - 1;
    }
    let r = s.substring_char(start, end).to_owned();
    assert(r@ =~= rest.take(end - start));
    r
}

/// The view of an optional string argument.
pub open spec fn opt_view(o: Option<&str>) -> Option<Seq<char>> {
    match o {
        Some(s) => Some(s@),
        None => None,
    }
}

/// The algorithm selected by an optional name; gzip where none is given.
pub open spec fn compressor_choice(c: Option<Seq<char>>) -> Result<CompressionAlgorithm, Error> {
    match c {
        None => Ok(CompressionAlgorithm::GZip),
        Some(s) => algorithm_named(s),
    }
}

/// The quality requested by an optional argument, a number from 0 to 255.
pub open spec fn quality_choice(q: Option<Seq<char>>) -> Result<Option<u8>, Error> {
    match q {
        None => Ok(None),
        Some(s) => match parsed_unsigned(s, 255) {
            Some(v) => Ok(Some(v as u8)),
            None => Err(Error::InvalidParameterValue(Setting::Quality)),
        },
    }
}

/// The worker count given by an optional argument; one where none is given.
/// Zero workers would leave every queued file unprocessed, so it is refused.
pub open spec fn threads_choice(t: Option<Seq<char>>) -> Result<usize, Error> {
    match t {
        None => Ok(1),
        Some(s) => match parsed_unsigned(s, usize::MAX as nat) {
            Some(v) => if v > 0 {
                Ok(v as usize)
            } else {
                Err(Error::InvalidParameterValue(Setting::Threads))
            },
            None => Err(Error::InvalidParameterValue(Setting::Threads)),
        },
    }
}

/// The first setting that is refused, in the order compressor, quality,
/// threads; `None` where every one is accepted.
pub open spec fn parameters_error(
    compressor: Option<Seq<char>>,
    quality: Option<Seq<char>>,
    threads: Option<Seq<char>>,
) -> Option<Error> {
    match compressor_choice(compressor) {
        Err(e) => Some(e),
        Ok(a) => match quality_choice(quality) {
            Err(e) => Some(e),
            Ok(q) => match encoder_for(a, q) {
                Err(e) => Some(e),
                Ok(_) => match threads_choice(threads) {
                    Err(e) => Some(e),
                    Ok(_) => None,
                },
            },
        },
    }
}

/// The settings of one run, fixed before any file is touched and shared
/// read-only by every worker.
pub struct Parameters {
    pub compressor: CompressionAlgorithm,
    pub extension: String,
    pub quality: Option<u8>,
    pub threads: usize,
    pub show_summary: bool,
    pub show_progress: bool,
}

impl Parameters {
    /// Checks and collects the settings of a run. The extension defaults to
    /// the algorithm's own and is trimmed; a quality that the algorithm does
    /// not accept is refused here, before any file is processed.
    pub fn new(
        compressor: Option<&str>,
        extension: Option<&str>,
        quality: Option<&str>,
        threads: Option<&str>,
        show_summary: bool,
        show_progress: bool,
    ) -> (r: Result<Parameters, Error>)
        ensures
            match parameters_error(opt_view(compressor), opt_view(quality), opt_view(threads)) {
                Some(e) => r == Err::<Parameters, Error>(e),
                None => r is Ok,
            },
            r matches Ok(p) ==> {
                &&& compressor_choice(opt_view(compressor)) == Ok::<CompressionAlgorithm, Error>(p.compressor)
                &&& quality_choice(opt_view(quality)) == Ok::<Option<u8>, Error>(p.quality)
                &&& encoder_for(p.compressor, p.quality) is Ok
                &&& threads_choice(opt_view(threads)) == Ok::<usize, Error>(p.threads)
                &&& p.extension@ == trimmed_extension(
                    match extension {
                        Some(e) => e@,
                        None => extension_spec(p.compressor),
                    },
                )
                &&& p.show_summary == show_summary
                &&& p.show_progress == show_progress
            },
    {
        let algorithm = match compressor {
            None => CompressionAlgorithm::GZip,
            Some(name) => CompressionAlgorithm::from_str(name)?,
        };
        let q: Option<u8> = match quality {
            None => None,
            Some(text) => match parse_unsigned(text, 255) {
                Some(v) => Some(v as u8),
                None => {
                    return Err(Error::InvalidParameterValue(Setting::Quality));
                },
            },
        };
        algorithm.encoder(q)?;
        let count: usize = match threads {
            None => 1,
            Some(text) => match parse_unsigned(text, usize::MAX as u64) {
                Some(v) => {
                    if v == 0 {
                        return Err(Error::InvalidParameterValue(Setting::Threads));
                    }
                    v as usize
                },
                None => {
                    return Err(Error::InvalidParameterValue(Setting::Threads));
                },
            },
        };
        let ext = match extension {
            Some(e) => trim_extension(e),
            None => trim_extension(algorithm.extension()),
        };
        Ok(
            Parameters {
                compressor: algorithm,
                extension: ext,
                quality: q,
                threads: count,
                show_summary,
                show_progress,
            },
        )
    }
}

} // verus!
