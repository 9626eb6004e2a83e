use vstd::prelude::*;
use crate::error::Error;
use crate::paths::{is_blacklisted, is_blacklisted_path, is_hidden, is_hidden_path};
use crate::roots::texts;

verus! {

#[verifier::external_type_specification]
#[verifier::external_body]
pub struct ExGlobSet(globset::GlobSet);

/// Whether globset accepts `pattern` as a glob with these options.
pub uninterp spec fn glob_accepts(pattern: Seq<char>, case_insensitive: bool) -> bool;

/// Whether globset builds one matcher from these valid patterns.
pub uninterp spec fn glob_set_accepts(patterns: Seq<Seq<char>>, case_insensitive: bool) -> bool;

/// Whether some of the patterns, compiled with these options, matches `path`.
pub uninterp spec fn globs_match(
    patterns: Seq<Seq<char>>,
    case_insensitive: bool,
    path: Seq<char>,
) -> bool;

/// Relies on `globset::GlobBuilder::build` for each pattern (matching
/// case-insensitively when asked, `*` and `?` never matching `/`, `\`
/// escaping) and on `globset::GlobSet::new` for the set: `None` where a
/// pattern is malformed or the set cannot be built.
#[verifier::external_body]
fn glob_set_of(patterns: &Vec<String>, case_insensitive: bool) -> (r: Option<globset::GlobSet>)
    ensures
        (r is Some) == ((forall|i: int|
            0 <= i < patterns@.len() ==> glob_accepts(#[trigger] patterns@[i]@, case_insensitive))
            && glob_set_accepts(texts(patterns@), case_insensitive)),
{
    let mut globs = Vec::new();
    for p in patterns.iter() {
        let mut b = globset::GlobBuilder::new(p);
        b.case_insensitive(case_insensitive).literal_separator(true).backslash_escape(true);
        globs.push(b.build().ok()?);
    }
    globset::GlobSet::new(globs).ok()
}

/// Relies on `globset::GlobSet::is_match`: whether any of the matcher's
/// globs matches the path. The set is the one `PathMatcher::new` built from
/// the matcher's patterns and case flag.
#[verifier::external_body]
fn glob_set_matches(m: &PathMatcher, path: &str) -> (r: bool)
    ensures
        r == globs_match(m.patterns(), m.case_insensitive(), path@),
{
    m.set.is_match(path)
}

/// Whether the traversal takes a path: a directory is descended into and a
/// file is queued only where no segment is hidden; a file also needs an
/// extension outside the blacklist and a match of some include pattern.
pub open spec fn admitted(path: Seq<char>, is_dir: bool, glob_matched: bool) -> bool {
    &&& !is_hidden_path(path)
    &&& (is_dir || (!is_blacklisted_path(path) && glob_matched))
}

/// The traversal's decision for a path, given whether the include patterns
/// match it.
pub fn decide_path(path: &str, is_dir: bool, glob_matched: bool) -> (r: bool)
    ensures
        r == admitted(path@, is_dir, glob_matched),
{
    if is_hidden(path) {
        false
    } else if is_dir {
        true
    } else {
        !is_blacklisted(path) && glob_matched
    }
}

/// The include patterns of a run, compiled.
pub struct PathMatcher {
    set: globset::GlobSet,
    patterns: Vec<String>,
    case_insensitive: bool,
}

impl PathMatcher {
    /// The include patterns the matcher was built from.
    pub closed spec fn patterns(&self) -> Seq<Seq<char>> {
        texts(self.patterns@)
    }

    /// Whether the matcher ignores case.
    pub closed spec fn case_insensitive(&self) -> bool {
        self.case_insensitive
    }

    /// Compiles the include patterns. No pattern at all is `InvalidUsage`; a
    /// malformed one, or a set that cannot be built, is `InvalidIncludeFilter`.
    pub fn new(filters: &Vec<String>, case_sensitive: bool) -> (r: Result<PathMatcher, Error>)
        ensures
            filters@.len() == 0 ==> r matches Err(Error::InvalidUsage),
            filters@.len() > 0 ==> (r is Ok <==> (forall|i: int|
                0 <= i < filters@.len() ==> glob_accepts(#[trigger] filters@[i]@, !case_sensitive))
                && glob_set_accepts(texts(filters@), !case_sensitive)),
            filters@.len() > 0 ==> (r matches Err(e) ==> e == Error::InvalidIncludeFilter),
            r matches Ok(m) ==> m.patterns() == texts(filters@) && m.case_insensitive()
                == !case_sensitive,
    {
        if filters.len() == 0 {
            return Err(Error::InvalidUsage);
        }
        let mut patterns: Vec<String> = Vec::new();
        let mut i: usize = 0;
        while i < filters.len()
            invariant
                i <= filters@.len(),
                texts(patterns@) == texts(filters@.take(i as int)),
            decreases filters@.len() - i,
        {
            let p = filters[i].clone();
            proof {
                assert(texts(filters@.take(i + 1)) =~= texts(filters@.take(i as int)).push(p@));
            }
            let ghost before = patterns@;
            patterns.push(p);
            assert(texts(patterns@) =~= texts(before).push(p@));
            i = i + 1;
        }
        assert(filters@.take(filters@.len() as int) =~= filters@);
        match glob_set_of(filters, !case_sensitive) {
            Some(set) => Ok(PathMatcher { set, patterns, case_insensitive: !case_sensitive }),
            None => Err(Error::InvalidIncludeFilter),
        }
    }

    /// Whether the traversal takes this path: a hidden path never, a file
    /// with a blacklisted extension never, whatever the patterns say; another
    /// file where some include pattern matches it.
    pub fn admits(&self, path: &str, is_dir: bool) -> (r: bool)
        ensures
            r == admitted(path@, is_dir, globs_match(self.patterns(), self.case_insensitive(), path@)),
    {
        if is_hidden(path) {
            false
        } else if is_dir {
            true
        } else if is_blacklisted(path) {
            false
        } else {
            glob_set_matches(self, path)
        }
    }
}

} // verus!
