use vstd::prelude::*;
use crate::text::{lex_lt, sorted_search, strictly_sorted};

verus! {

/// What `str::to_lowercase` returns for a string.
pub uninterp spec fn lower_of(s: Seq<char>) -> Seq<char>;

/// Relies on `str::to_lowercase`: its result depends on the characters alone,
/// and an empty string stays empty.
#[verifier::external_body]
fn lowercase(s: &str) -> (r: String)
    ensures
        r@ == lower_of(s@),
        s@.len() == 0 ==> r@.len() == 0,
{
    s.to_lowercase()
}

/// The segment that starts at `i` is `.` or `..`.
pub open spec fn is_dot_segment(p: Seq<char>, i: int) -> bool {
    ||| i + 1 == p.len() || p[i + 1] == '/'
    ||| p[i + 1] == '.' && (i + 2 == p.len() || p[i + 2] == '/')
}

/// Some segment of the path begins with a dot and is neither `.` nor `..`.
pub open spec fn is_hidden_path(p: Seq<char>) -> bool {
    exists|i: int|
        0 <= i < p.len() && #[trigger] p[i] == '.' && (i == 0 || p[i - 1] == '/')
            && !is_dot_segment(p, i)
}

/// The text after the last `/` (the whole path where there is none).
pub open spec fn last_segment(p: Seq<char>) -> Seq<char>
    decreases p.len(),
{
    if p.len() == 0 {
        p
    } else if p.last() == '/' {
        Seq::empty()
    } else {
        last_segment(p.drop_last()).push(p.last())
    }
}

/// The index of the last `.`, or -1 where there is none.
pub open spec fn last_dot(s: Seq<char>) -> int
    decreases s.len(),
{
    if s.len() == 0 {
        -1
    } else if s.last() == '.' {
        s.len() - 1
    } else {
        last_dot(s.drop_last())
    }
}

/// The extension of a path's file name, as `Path::extension` gives it: the
/// text after the name's last dot, where that dot is not its first character.
pub open spec fn extension_of(p: Seq<char>) -> Option<Seq<char>> {
    let name = last_segment(p);
    let k = last_dot(name);
    if k <= 0 || name == seq!['.', '.'] {
        None
    } else {
        Some(name.subrange(k + 1, name.len() as int))
    }
}

/// Extensions of files that already hold compressed data, in code-point order.
pub open spec fn compressed_extension_list() -> Seq<Seq<char>> {
    seq![
        "7z"@, "br"@, "bz2"@, "gz"@, "jpeg"@, "jpg"@, "lz"@, "lzma"@, "png"@, "rar"@,
        "webp"@, "xz"@, "zip"@, "zst"@,
    ]
}

/// A path whose extension, lowercased, is a compressed format's.
pub open spec fn is_blacklisted_path(p: Seq<char>) -> bool {
    match extension_of(p) {
        Some(e) => compressed_extension_list().contains(lower_of(e)),
        None => false,
    }
}

/// The key that a search compares: the term itself, or its lowercase form.
pub open spec fn search_key(term: Seq<char>, case_sensitive: bool) -> Seq<char> {
    if case_sensitive {
        term
    } else {
        lower_of(term)
    }
}

/// The compressed output's path: the source path, a dot, the extension.
pub open spec fn destination_of(src: Seq<char>, extension: Seq<char>) -> Seq<char> {
    src.push('.') + extension
}

/// Each element before the next, for every pair of neighbours, makes the
/// whole list strictly sorted.
proof fn lemma_sorted_from_neighbours(s: Seq<Seq<char>>)
    requires
        forall|i: int| 0 <= i < s.len() - 1 ==> lex_lt(#[trigger] s[i], s[i + 1]),
    ensures
        strictly_sorted(s),
{
    assert forall|i: int, j: int| 0 <= i < j < s.len() implies lex_lt(
        #[trigger] s[i],
        #[trigger] s[j],
    ) by {
        lemma_sorted_span(s, i, j);
    }
}

proof fn lemma_sorted_span(s: Seq<Seq<char>>, i: int, j: int)
    requires
        forall|k: int| 0 <= k < s.len() - 1 ==> lex_lt(#[trigger] s[k], s[k + 1]),
        0 <= i < j < s.len(),
    ensures
        lex_lt(s[i], s[j]),
    decreases j - i,
{
    if j > i + 1 {
        lemma_sorted_span(s, i, j - 1);
        assert(lex_lt(s[j - 1], s[j]));
        crate::text::lemma_lex_lt_transitive(s[i], s[j - 1], s[j]);
    }
}

pub proof fn lemma_compressed_extension_list_sorted()
    ensures
        strictly_sorted(compressed_extension_list()),
{
    reveal_strlit("7z");
    reveal_strlit("br");
    reveal_strlit("bz2");
    reveal_strlit("gz");
    reveal_strlit("jpeg");
    reveal_strlit("jpg");
    reveal_strlit("lz");
    reveal_strlit("lzma");
    reveal_strlit("png");
    reveal_strlit("rar");
    reveal_strlit("webp");
    reveal_strlit("xz");
    reveal_strlit("zip");
    reveal_strlit("zst");
    let s = compressed_extension_list();
    reveal_with_fuel(lex_lt, 4);
    assert(lex_lt(s[0], s[1]));
    assert(lex_lt(s[1], s[2]));
    assert(lex_lt(s[2], s[3]));
    assert(lex_lt(s[3], s[4]));
    assert(lex_lt(s[4], s[5]));
    assert(lex_lt(s[5], s[6]));
    assert(lex_lt(s[6], s[7]));
    assert(lex_lt(s[7], s[8]));
    assert(lex_lt(s[8], s[9]));
    assert(lex_lt(s[9], s[10]));
    assert(lex_lt(s[10], s[11]));
    assert(lex_lt(s[11], s[12]));
    assert(lex_lt(s[12], s[13]));
    lemma_sorted_from_neighbours(s);
}

/// The blacklist of compressed-format extensions, in code-point order.
pub fn compressed_extensions() -> (r: Vec<&'static str>)
    ensures
        r@.map_values(|e: &str| e@) == compressed_extension_list(),
{
    let r: Vec<&'static str> = vec![
        "7z", "br", "bz2", "gz", "jpeg", "jpg", "lz", "lzma", "png", "rar", "webp", "xz", "zip",
        "zst",
    ];
    assert(r@.map_values(|e: &str| e@) =~= compressed_extension_list());
    r
}

/// Looks `search_term` up in a sorted list, comparing its lowercase form
/// unless the search is case sensitive.
pub fn str_search(sorted: &[&str], search_term: &str, case_sensitive: bool) -> (r: Result<
    usize,
    usize,
>)
    requires
        strictly_sorted(sorted@.map_values(|s: &str| s@)),
    ensures
        match r {
            Ok(i) => i < sorted@.len() && sorted@[i as int]@ == search_key(
                search_term@,
                case_sensitive,
            ),
            Err(i) => {
                &&& i <= sorted@.len()
                &&& forall|j: int|
                    0 <= j < i ==> lex_lt(
                        #[trigger] sorted@[j]@,
                        search_key(search_term@, case_sensitive),
                    )
                &&& forall|j: int|
                    i <= j < sorted@.len() ==> lex_lt(
                        search_key(search_term@, case_sensitive),
                        #[trigger] sorted@[j]@,
                    )
            },
        },
        r is Ok <==> exists|j: int|
            0 <= j < sorted@.len() && #[trigger] sorted@[j]@ == search_key(
                search_term@,
                case_sensitive,
            ),
{
    if case_sensitive {
        sorted_search(sorted, search_term)
    } else {
        let term = lowercase(search_term);
        sorted_search(sorted, term.as_str())
    }
}

/// Whether some segment of the path is hidden: it begins with a dot and is
/// neither `.` nor `..`.
pub fn is_hidden(path: &str) -> (r: bool)
    ensures
        r == is_hidden_path(path@),
{
    let n = path.unicode_len();
    let mut i: usize = 0;
    while i < n
        invariant
            n == path@.len(),
            i <= n,
            forall|k: int|
                0 <= k < i ==> !(#[trigger] path@[k] == '.' && (k == 0 || path@[k - 1] == '/')
                    && !is_dot_segment(path@, k)),
        decreases n - i,
    {
        let c = path.get_char(i);
        if c == '.' && (i == 0 || path.get_char(i - 1) == '/') {
            let single = i + 1 == n || path.get_char(i + 1) == '/';
            let double = i + 1 < n && path.get_char(i + 1) == '.' && (i + 2 == n || path.get_char(
                i + 2,
            ) == '/');
            if !single && !double {
                assert(path@[i as int] == '.');
                return true;
            }
        }
        i = i + 1;
    }
    false
}

proof fn lemma_last_segment_push(p: Seq<char>, c: char)
    ensures
        last_segment(p.push(c)) == if c == '/' {
            Seq::<char>::empty()
        } else {
            last_segment(p).push(c)
        },
{
    assert(p.push(c).drop_last() =~= p);
}

proof fn lemma_last_dot_push(s: Seq<char>, c: char)
    ensures
        last_dot(s.push(c)) == if c == '.' {
            s.len() as int
        } else {
            last_dot(s)
        },
{
    assert(s.push(c).drop_last() =~= s);
}

/// Where the extension of the path's file name begins, if it has one.
fn extension_start(path: &str) -> (r: Option<usize>)
    ensures
        match r {
            None => extension_of(path@) is None,
            Some(i) => i <= path@.len() && extension_of(path@) == Some(
                path@.subrange(i as int, path@.len() as int),
            ),
        },
{
    let n = path.unicode_len();
    let mut i: usize = 0;
    let mut seg: usize = 0;
    let mut dot: Option<usize> = None;
    while i < n
        invariant
            n == path@.len(),
            seg <= i <= n,
            last_segment(path@.subrange(0, i as int)) == path@.subrange(seg as int, i as int),
            last_dot(path@.subrange(seg as int, i as int)) == match dot {
                Some(d) => d - seg,
                None => -1,
            },
            match dot {
                Some(d) => seg <= d < i,
                None => true,
            },
        decreases n - i,
    {
        let c = path.get_char(i);
        proof {
            assert(path@.subrange(0, i + 1) =~= path@.subrange(0, i as int).push(c));
            lemma_last_segment_push(path@.subrange(0, i as int), c);
            lemma_last_dot_push(path@.subrange(seg as int, i as int), c);
        }
        if c == '/' {
            seg = i + 1;
            dot = None;
            proof {
                assert(path@.subrange(seg as int, i + 1) =~= Seq::<char>::empty());
            }
        } else {
            if c == '.' {
                dot = Some(i);
            }
            proof {
                assert(path@.subrange(seg as int, i + 1) =~= path@.subrange(seg as int, i as int).push(c));
            }
        }
        i = i + 1;
    }
    proof {
        assert(path@.subrange(0, n as int) =~= path@);
    }
    let ghost name = path@.subrange(seg as int, n as int);
    match dot {
        None => None,
        Some(d) => {
            if d == seg {
                None
            } else if n - seg == 2 && path.get_char(seg) == '.' && path.get_char(seg + 1) == '.' {
                assert(name =~= seq!['.', '.']);
                None
            } else {
                assert(name.subrange(d - seg + 1, name.len() as int) =~= path@.subrange(
                    d + 1,
                    n as int,
                ));
                if n - seg == 2 {
                    assert(name != seq!['.', '.']) by {
                        if name == seq!['.', '.'] {
                            assert(name[0] == path@[seg as int]);
                            assert(name[1] == path@[seg + 1]);
                        }
                    }
                }
                Some(d + 1)
            }
        },
    }
}

/// Whether the path's extension names an already-compressed format,
/// compared case-insensitively.
pub fn is_blacklisted(path: &str) -> (r: bool)
    ensures
        r == is_blacklisted_path(path@),
{
    match extension_start(path) {
        None => false,
        Some(i) => {
            let ext = path.substring_char(i, path.unicode_len());
            let list = compressed_extensions();
            proof {
                lemma_compressed_extension_list_sorted();
            }
            let found = str_search(list.as_slice(), ext, false);
            proof {
                let views = list@.map_values(|e: &str| e@);
                let key = lower_of(ext@);
                if views.contains(key) {
                    let j = choose|j: int| 0 <= j < views.len() && views[j] == key;
                    assert(list@[j]@ == key);
                }
            }
            found.is_ok()
        },
    }
}

/// The compressed output's path for a source: `src`, a dot, `extension`.
pub fn destination_path(src: &str, extension: &str) -> (r: String)
    ensures
        r@ == destination_of(src@, extension@),
{
    proof {
        reveal_strlit(".");
    }
    let r = src.to_owned().concat(".").concat(extension);
    assert(r@ =~= destination_of(src@, extension@));
    r
}

} // verus!
