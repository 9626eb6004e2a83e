use vstd::prelude::*;
use core::cmp::Ordering;

verus! {

/// Strict lexicographic order by code point, the order of `str`'s `Ord`.
pub open spec fn lex_lt(a: Seq<char>, b: Seq<char>) -> bool
    decreases a.len(),
{
    if a.len() == 0 {
        b.len() > 0
    } else if b.len() == 0 {
        false
    } else if a[0] != b[0] {
        (a[0] as int) < (b[0] as int)
    } else {
        lex_lt(a.drop_first(), b.drop_first())
    }
}

/// Every element comes strictly before every later one.
pub open spec fn strictly_sorted(s: Seq<Seq<char>>) -> bool {
    forall|i: int, j: int| 0 <= i < j < s.len() ==> lex_lt(#[trigger] s[i], #[trigger] s[j])
}

pub proof fn lemma_lex_lt_asymmetric(a: Seq<char>, b: Seq<char>)
    ensures
        lex_lt(a, b) ==> !lex_lt(b, a),
        lex_lt(a, b) ==> a != b,
    decreases a.len(),
{
    if a.len() > 0 && b.len() > 0 && a[0] == b[0] {
        lemma_lex_lt_asymmetric(a.drop_first(), b.drop_first());
        if a == b {
            assert(a.drop_first() == b.drop_first());
        }
    }
}

pub proof fn lemma_lex_lt_transitive(a: Seq<char>, b: Seq<char>, c: Seq<char>)
    requires
        lex_lt(a, b),
        lex_lt(b, c),
    ensures
        lex_lt(a, c),
    decreases a.len(),
{
    if a.len() > 0 && b.len() > 0 && c.len() > 0 && a[0] == b[0] && b[0] == c[0] {
        lemma_lex_lt_transitive(a.drop_first(), b.drop_first(), c.drop_first());
    }
}

/// With equal first `i` characters, the order is decided by what follows.
proof fn lemma_lex_lt_common_prefix(a: Seq<char>, b: Seq<char>, i: int)
    requires
        0 <= i <= a.len(),
        i <= b.len(),
        a.subrange(0, i) == b.subrange(0, i),
    ensures
        lex_lt(a, b) == lex_lt(a.subrange(i, a.len() as int), b.subrange(i, b.len() as int)),
    decreases i,
{
    if i > 0 {
        assert(a[0] == a.subrange(0, i)[0]);
        assert(b[0] == b.subrange(0, i)[0]);
        assert(a.drop_first().subrange(0, i - 1) =~= a.subrange(0, i).drop_first());
        assert(b.drop_first().subrange(0, i - 1) =~= b.subrange(0, i).drop_first());
        lemma_lex_lt_common_prefix(a.drop_first(), b.drop_first(), i - 1);
        assert(a.drop_first().subrange(i - 1, a.len() - 1) =~= a.subrange(i, a.len() as int));
        assert(b.drop_first().subrange(i - 1, b.len() - 1) =~= b.subrange(i, b.len() as int));
    } else {
        assert(a.subrange(0, a.len() as int) =~= a);
        assert(b.subrange(0, b.len() as int) =~= b);
    }
}

/// Compares two strings in code-point order.
pub fn compare(a: &str, b: &str) -> (r: Ordering)
    ensures
        (r == Ordering::Less) == lex_lt(a@, b@),
        (r == Ordering::Equal) == (a@ == b@),
        (r == Ordering::Greater) == lex_lt(b@, a@),
{
    let la = a.unicode_len();
    let lb = b.unicode_len();
    let mut i: usize = 0;
    while i < la && i < lb
        invariant
            la == a@.len(),
            lb == b@.len(),
            i <= la,
            i <= lb,
            a@.subrange(0, i as int) == b@.subrange(0, i as int),
        decreases la - i,
    {
        let ca = a.get_char(i);
        let cb = b.get_char(i);
        if ca != cb {
            proof {
                lemma_lex_lt_common_prefix(a@, b@, i as int);
                lemma_lex_lt_common_prefix(b@, a@, i as int);
                lemma_lex_lt_asymmetric(a@, b@);
                assert(a@.subrange(i as int, la as int)[0] == ca);
                assert(b@.subrange(i as int, lb as int)[0] == cb);
                assert(a@[i as int] != b@[i as int]);
            }
            if (ca as u32) < (cb as u32) {
                return Ordering::Less;
            } else {
                return Ordering::Greater;
            }
        }
        proof {
            assert(a@.subrange(0, i + 1) =~= a@.subrange(0, i as int).push(ca));
            assert(b@.subrange(0, i + 1) =~= b@.subrange(0, i as int).push(cb));
        }
        i = i + 1;
    }
    proof {
        lemma_lex_lt_common_prefix(a@, b@, i as int);
        lemma_lex_lt_common_prefix(b@, a@, i as int);
        lemma_lex_lt_asymmetric(a@, b@);
        lemma_lex_lt_asymmetric(b@, a@);
        if i == la && i == lb {
            assert(a@ =~= a@.subrange(0, i as int));
            assert(b@ =~= b@.subrange(0, i as int));
        }
        if i == la && i < lb {
            assert(a@.len() < b@.len());
        }
        if i < la && i == lb {
            assert(a@.len() > b@.len());
        }
    }
    if la == lb {
        Ordering::Equal
    } else if la < lb {
        Ordering::Less
    } else {
        Ordering::Greater
    }
}

/// Whether two strings hold the same characters.
pub fn same_text(a: &str, b: &str) -> (r: bool)
    ensures
        r == (a@ == b@),
{
    match compare(a, b) {
        Ordering::Equal => true,
        _ => false,
    }
}

/// Finds `term` in a list sorted in code-point order: `Ok` with its
/// position, or `Err` with the position at which it would be inserted.
pub fn sorted_search(sorted: &[&str], term: &str) -> (r: Result<usize, usize>)
    requires
        strictly_sorted(sorted@.map_values(|s: &str| s@)),
    ensures
        match r {
            Ok(i) => i < sorted@.len() && sorted@[i as int]@ == term@,
            Err(i) => {
                &&& i <= sorted@.len()
                &&& forall|j: int| 0 <= j < i ==> lex_lt(#[trigger] sorted@[j]@, term@)
                &&& forall|j: int| i <= j < sorted@.len() ==> lex_lt(term@, #[trigger] sorted@[j]@)
            },
        },
        r is Ok <==> exists|j: int| 0 <= j < sorted@.len() && #[trigger] sorted@[j]@ == term@,
{
    let ghost views = sorted@.map_values(|s: &str| s@);
    let mut lo: usize = 0;
    let mut hi: usize = sorted.len();
    while lo < hi
        invariant
            hi <= sorted@.len(),
            lo <= hi,
            views == sorted@.map_values(|s: &str| s@),
            strictly_sorted(views),
            forall|j: int| 0 <= j < lo ==> lex_lt(#[trigger] sorted@[j]@, term@),
            forall|j: int| hi <= j < sorted@.len() ==> lex_lt(term@, #[trigger] sorted@[j]@),
        decreases hi - lo,
    {
        let mid: usize = lo + (hi - lo) / 2;
        match compare(sorted[mid], term) {
            Ordering::Equal => {
                return Ok(mid);
            },
            Ordering::Less => {
                proof {
                    assert forall|j: int| 0 <= j < mid + 1 implies lex_lt(
                        #[trigger] sorted@[j]@,
                        term@,
                    ) by {
                        if j < mid {
                            assert(lex_lt(views[j], views[mid as int]));
                            lemma_lex_lt_transitive(sorted@[j]@, sorted@[mid as int]@, term@);
                        }
                    }
                }
                lo = mid + 1;
            },
            Ordering::Greater => {
                proof {
                    assert forall|j: int| mid <= j < sorted@.len() implies lex_lt(
                        term@,
                        #[trigger] sorted@[j]@,
                    ) by {
                        if j > mid {
                            assert(lex_lt(views[mid as int], views[j]));
                            lemma_lex_lt_transitive(term@, sorted@[mid as int]@, sorted@[j]@);
                        }
                    }
                }
                hi = mid;
            },
        }
    }
    proof {
        assert forall|j: int| 0 <= j < sorted@.len() implies #[trigger] sorted@[j]@ != term@ by {
            if j < lo {
                lemma_lex_lt_asymmetric(sorted@[j]@, term@);
            } else {
                lemma_lex_lt_asymmetric(term@, sorted@[j]@);
            }
        }
    }
    Err(lo)
}

} // verus!
