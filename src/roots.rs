use vstd::prelude::*;

verus! {

/// Characters that start a glob expression.
pub open spec fn is_wildcard(c: char) -> bool {
    c == '?' || c == '*' || c == '{' || c == '['
}

/// The length of the longest prefix that holds no wildcard.
pub open spec fn literal_len(f: Seq<char>) -> int
    decreases f.len(),
{
    if f.len() == 0 || is_wildcard(f[0]) {
        0
    } else {
        1 + literal_len(f.drop_first())
    }
}

/// A path made relative to the current directory unless it already starts
/// with `.` or `/`.
pub open spec fn rooted(d: Seq<char>) -> Seq<char> {
    if d.len() > 0 && (d[0] == '.' || d[0] == '/') {
        d
    } else {
        seq!['.', '/'] + d
    }
}

/// The index of the last `/`, or -1 where there is none.
pub open spec fn last_slash(s: Seq<char>) -> int
    decreases s.len(),
{
    if s.len() == 0 {
        -1
    } else if s.last() == '/' {
        s.len() - 1
    } else {
        last_slash(s.drop_last())
    }
}

/// The directory part of a path that does not end with `/`; the current
/// directory where there is none.
pub open spec fn parent_dir(d: Seq<char>) -> Seq<char> {
    let k = last_slash(d);
    if k < 0 {
        seq!['.', '/']
    } else if k == 0 {
        seq!['/']
    } else {
        d.take(k)
    }
}

/// Trailing separators removed, keeping at least one character, so that
/// `./a/` and `./a` name one directory.
pub open spec fn trim_trailing_slashes(d: Seq<char>) -> Seq<char>
    decreases d.len(),
{
    if d.len() > 1 && d.last() == '/' {
        trim_trailing_slashes(d.drop_last())
    } else {
        d
    }
}

/// The directory from which a filter's matches are searched: the literal
/// part of the filter before its first wildcard, as a directory. A filter
/// without wildcards is searched from itself.
pub open spec fn search_root_of(f: Seq<char>) -> Seq<char> {
    let pre = f.take(literal_len(f));
    let d = if pre.len() == 0 {
        seq!['.', '/']
    } else if pre.len() == f.len() || pre.last() == '/' {
        rooted(pre)
    } else {
        parent_dir(rooted(pre))
    };
    trim_trailing_slashes(d)
}

fn literal_prefix_len(f: &str) -> (r: usize)
    ensures
        r == literal_len(f@),
        r <= f@.len(),
{
    let n = f.unicode_len();
    let mut i: usize = 0;
    assert(f@.skip(0) =~= f@);
    while i < n
        invariant
            n == f@.len(),
            i <= n,
            literal_len(f@) == i + literal_len(f@.skip(i as int)),
        decreases n - i,
    {
        let c = f.get_char(i);
        if c == '?' || c == '*' || c == '{' || c == '[' {
            assert(is_wildcard(f@.skip(i as int)[0]));
            return i;
        }
        proof {
            assert(f@.skip(i as int).drop_first() =~= f@.skip(i + 1));
        }
        i = i + 1;
    }
    assert(f@.skip(i as int).len() == 0);
    i
}

fn make_rooted(d: &str) -> (r: String)
    ensures
        r@ == rooted(d@),
{
    let n = d.unicode_len();
    if n > 0 {
        let c = d.get_char(0);
        if c == '.' || c == '/' {
            return d.to_owned();
        }
    }
    proof {
        reveal_strlit("./");
    }
    let r = "./".to_owned().concat(d);
    assert(r@ =~= rooted(d@));
    r
}

proof fn lemma_last_slash_push(s: Seq<char>, c: char)
    ensures
        last_slash(s.push(c)) == if c == '/' {
            s.len() as int
        } else {
            last_slash(s)
        },
{
    assert(s.push(c).drop_last() =~= s);
}

fn last_slash_index(d: &str) -> (r: Option<usize>)
    ensures
        match r {
            None => last_slash(d@) == -1,
            Some(k) => last_slash(d@) == k && k < d@.len(),
        },
{
    let n = d.unicode_len();
    let mut i: usize = 0;
    let mut found: Option<usize> = None;
    assert(d@.take(0) =~= Seq::<char>::empty());
    while i < n
        invariant
            n == d@.len(),
            i <= n,
            last_slash(d@.take(i as int)) == match found {
                Some(k) => k as int,
                None => -1,
            },
            match found {
                Some(k) => k < i,
                None => true,
            },
        decreases n - i,
    {
        let c = d.get_char(i);
        proof {
            assert(d@.take(i + 1) =~= d@.take(i as int).push(c));
            lemma_last_slash_push(d@.take(i as int), c);
        }
        if c == '/' {
            found = Some(i);
        }
        i = i + 1;
    }
    assert(d@.take(n as int) =~= d@);
    found
}

fn parent_of(d: &str) -> (r: String)
    ensures
        r@ == parent_dir(d@),
{
    proof {
        reveal_strlit("./");
        reveal_strlit("/");
    }
    match last_slash_index(d) {
        None => {
            let r = "./".to_owned();
            assert(r@ =~= seq!['.', '/']);
            r
        },
        Some(k) => {
            if k == 0 {
                let r = "/".to_owned();
                assert(r@ =~= seq!['/']);
                r
            } else {
                let r = d.substring_char(0, k).to_owned();
                assert(r@ =~= d@.take(k as int));
                r
            }
        },
    }
}

fn trim_slashes(d: &str) -> (r: String)
    ensures
        r@ == trim_trailing_slashes(d@),
{
    let n = d.unicode_len();
    let mut end: usize = n;
    assert(d@.take(n as int) =~= d@);
    while end > 1 && d.get_char(end - 1) == '/'
        invariant
            n == d@.len(),
            end <= n,
            trim_trailing_slashes(d@) == trim_trailing_slashes(d@.take(end as int)),
        decreases end,
    {
        assert(d@.take(end as int).drop_last() =~= d@.take(end - 1));
        end = end - 1;
    }
    let r = d.substring_char(0, end).to_owned();
    assert(r@ =~= d@.take(end as int));
    r
}

/// The directory from which the matches of one filter are searched.
pub fn search_root(filter: &str) -> (r: String)
    ensures
        r@ == search_root_of(filter@),
{
    proof {
        reveal_strlit("./");
    }
    let n = filter.unicode_len();
    let k = literal_prefix_len(filter);
    let pre = filter.substring_char(0, k);
    assert(pre@ =~= filter@.take(k as int));
    let d: String = if k == 0 {
        let r = "./".to_owned();
        assert(r@ =~= seq!['.', '/']);
        r
    } else if k == n || filter.get_char(k - 1) == '/' {
        make_rooted(pre)
    } else {
        let full = make_rooted(pre);
        parent_of(full.as_str())
    };
    trim_slashes(d.as_str())
}

/// Makes every filter explicit about where it starts: one that does not begin
/// with `.` or `/` gets a `./` prefix.
pub fn fix_filters(filters: &mut Vec<String>)
    requires
        forall|i: int| 0 <= i < old(filters)@.len() ==> (#[trigger] old(filters)@[i])@.len() > 0,
    ensures
        final(filters)@.len() == old(filters)@.len(),
        forall|i: int|
            0 <= i < final(filters)@.len() ==> (#[trigger] final(filters)@[i])@ == rooted(
                old(filters)@[i]@,
            ),
{
    let ghost original = filters@;
    let n = filters.len();
    let mut i: usize = 0;
    while i < n
        invariant
            n == original.len(),
            filters@.len() == n,
            i <= n,
            forall|k: int| 0 <= k < i ==> (#[trigger] filters@[k])@ == rooted(original[k]@),
            forall|k: int| i <= k < n ==> #[trigger] filters@[k] == original[k],
        decreases n - i,
    {
        let new_path = make_rooted(filters[i].as_str());
        filters.set(i, new_path);
        i = i + 1;
    }
}

/// The text of each string.
pub open spec fn texts(v: Seq<String>) -> Seq<Seq<char>> {
    v.map_values(|s: String| s@)
}

/// The search root of each filter.
pub open spec fn roots_of(filters: Seq<String>) -> Seq<Seq<char>> {
    filters.map_values(|f: String| search_root_of(f@))
}

fn contains_text(v: &Vec<String>, s: &str) -> (r: bool)
    ensures
        r == texts(v@).contains(s@),
{
    let mut j: usize = 0;
    while j < v.len()
        invariant
            j <= v@.len(),
            forall|k: int| 0 <= k < j ==> (#[trigger] v@[k])@ != s@,
        decreases v@.len() - j,
    {
        if crate::text::same_text(v[j].as_str(), s) {
            assert(texts(v@)[j as int] == s@);
            return true;
        }
        j = j + 1;
    }
    proof {
        if texts(v@).contains(s@) {
            let k = choose|k: int| 0 <= k < texts(v@).len() && texts(v@)[k] == s@;
            assert(v@[k]@ == s@);
        }
    }
    false
}

/// `b` lies strictly inside the directory `a`.
pub open spec fn is_under(b: Seq<char>, a: Seq<char>) -> bool {
    &&& a.len() < b.len()
    &&& b.take(a.len() as int) == a
    &&& ((a.len() > 0 && a.last() == '/') || b[a.len() as int] == '/')
}

/// Some directory of `dirs` holds `x` strictly inside it.
pub open spec fn is_nested(dirs: Seq<Seq<char>>, x: Seq<char>) -> bool {
    exists|k: int| 0 <= k < dirs.len() && is_under(x, #[trigger] dirs[k])
}

/// `x` is one of `dirs` or lies inside one of them.
pub open spec fn is_covered(dirs: Seq<Seq<char>>, x: Seq<char>) -> bool {
    exists|j: int| 0 <= j < dirs.len() && (#[trigger] dirs[j] == x || is_under(x, dirs[j]))
}

/// No directory of `dirs` lies inside another.
pub open spec fn none_nested(dirs: Seq<Seq<char>>) -> bool {
    forall|j: int, k: int|
        0 <= j < dirs.len() && 0 <= k < dirs.len() ==> !is_under(#[trigger] dirs[j], #[trigger] dirs[k])
}

proof fn lemma_under_transitive(x: Seq<char>, d: Seq<char>, n: Seq<char>)
    requires
        is_under(x, d),
        is_under(d, n),
    ensures
        is_under(x, n),
{
    assert(x.take(n.len() as int) =~= x.take(d.len() as int).take(n.len() as int));
    if !(n.len() > 0 && n.last() == '/') {
        assert(x[n.len() as int] == x.take(d.len() as int)[n.len() as int]);
    }
}

fn is_under_text(b: &str, a: &str) -> (r: bool)
    ensures
        r == is_under(b@, a@),
{
    let la = a.unicode_len();
    let lb = b.unicode_len();
    if la >= lb {
        return false;
    }
    let mut i: usize = 0;
    while i < la
        invariant
            la == a@.len(),
            lb == b@.len(),
            la < lb,
            i <= la,
            forall|k: int| 0 <= k < i ==> a@[k] == b@[k],
        decreases la - i,
    {
        if a.get_char(i) != b.get_char(i) {
            assert(b@.take(la as int)[i as int] != a@[i as int]);
            return false;
        }
        i = i + 1;
    }
    assert(b@.take(la as int) =~= a@);
    (la > 0 && a.get_char(la - 1) == '/') || b.get_char(la) == '/'
}

fn nested_in(dirs: &Vec<String>, x: &str) -> (r: bool)
    ensures
        r == is_nested(texts(dirs@), x@),
{
    let mut k: usize = 0;
    while k < dirs.len()
        invariant
            k <= dirs@.len(),
            forall|m: int| 0 <= m < k ==> !is_under(x@, #[trigger] texts(dirs@)[m]),
        decreases dirs@.len() - k,
    {
        if is_under_text(x, dirs[k].as_str()) {
            assert(is_under(x@, texts(dirs@)[k as int]));
            return true;
        }
        k = k + 1;
    }
    false
}

/// Every directory is kept unless it lies inside another, so each one
/// lies inside, or is, a kept one.
proof fn lemma_outermost_cover(t: Seq<Seq<char>>, kept: Seq<Seq<char>>, x: Seq<char>)
    requires
        t.contains(x),
        forall|i: int| 0 <= i < t.len() && !is_nested(t, #[trigger] t[i]) ==> kept.contains(t[i]),
    ensures
        is_covered(kept, x),
    decreases x.len(),
{
    let i = choose|i: int| 0 <= i < t.len() && t[i] == x;
    if !is_nested(t, x) {
        let j = choose|j: int| 0 <= j < kept.len() && kept[j] == t[i];
        assert(kept[j] == x);
    } else {
        let k = choose|k: int| 0 <= k < t.len() && is_under(x, #[trigger] t[k]);
        assert(t.contains(t[k]));
        lemma_outermost_cover(t, kept, t[k]);
        let j = choose|j: int| 0 <= j < kept.len() && (#[trigger] kept[j] == t[k] || is_under(t[k], kept[j]));
        if kept[j] != t[k] {
            lemma_under_transitive(x, t[k], kept[j]);
        }
        assert(kept[j] == x || is_under(x, kept[j]));
    }
}

/// The directories of `dirs` that lie inside no other, in their order.
fn outermost(dirs: &Vec<String>) -> (r: Vec<String>)
    requires
        texts(dirs@).no_duplicates(),
    ensures
        texts(r@).no_duplicates(),
        none_nested(texts(r@)),
        forall|j: int| 0 <= j < r@.len() ==> texts(dirs@).contains(#[trigger] texts(r@)[j]),
        forall|i: int| 0 <= i < dirs@.len() ==> is_covered(texts(r@), #[trigger] texts(dirs@)[i]),
{
    let ghost t = texts(dirs@);
    let mut r: Vec<String> = Vec::new();
    let mut i: usize = 0;
    while i < dirs.len()
        invariant
            i <= dirs@.len(),
            t == texts(dirs@),
            t.no_duplicates(),
            texts(r@).no_duplicates(),
            forall|j: int|
                0 <= j < r@.len() ==> t.take(i as int).contains(#[trigger] texts(r@)[j]) && !is_nested(
                    t,
                    texts(r@)[j],
                ),
            forall|m: int| 0 <= m < i && !is_nested(t, #[trigger] t[m]) ==> texts(r@).contains(t[m]),
        decreases dirs@.len() - i,
    {
        if !nested_in(dirs, dirs[i].as_str()) {
            let ghost before = texts(r@);
            let d = dirs[i].clone();
            proof {
                assert(!before.contains(t[i as int])) by {
                    if before.contains(t[i as int]) {
                        let j = choose|j: int| 0 <= j < before.len() && before[j] == t[i as int];
                        assert(t.take(i as int).contains(before[j]));
                        let m = choose|m: int| 0 <= m < i && t.take(i as int)[m] == before[j];
                        assert(t[m] == t[i as int]);
                    }
                }
            }
            r.push(d);
            proof {
                assert(texts(r@) =~= before.push(t[i as int]));
                assert forall|j: int| 0 <= j < r@.len() implies t.take(i + 1).contains(
                    #[trigger] texts(r@)[j],
                ) && !is_nested(t, texts(r@)[j]) by {
                    if j < before.len() {
                        let m = choose|m: int| 0 <= m < i && t.take(i as int)[m] == before[j];
                        assert(t.take(i + 1)[m] == before[j]);
                    } else {
                        assert(t.take(i + 1)[i as int] == t[i as int]);
                    }
                }
                assert forall|m: int| 0 <= m < i + 1 && !is_nested(t, #[trigger] t[m]) implies texts(
                    r@,
                ).contains(t[m]) by {
                    if m < i {
                        let j = choose|j: int| 0 <= j < before.len() && before[j] == t[m];
                        assert(texts(r@)[j] == t[m]);
                    } else {
                        assert(texts(r@)[before.len() as int] == t[m]);
                    }
                }
            }
        } else {
            proof {
                assert forall|j: int| 0 <= j < r@.len() implies t.take(i + 1).contains(
                    #[trigger] texts(r@)[j],
                ) && !is_nested(t, texts(r@)[j]) by {
                    let m = choose|m: int| 0 <= m < i && t.take(i as int)[m] == texts(r@)[j];
                    assert(t.take(i + 1)[m] == texts(r@)[j]);
                }
            }
        }
        i = i + 1;
    }
    proof {
        assert(t.take(dirs@.len() as int) =~= t);
        assert forall|j: int, k: int|
            0 <= j < texts(r@).len() && 0 <= k < texts(r@).len() implies !is_under(
            #[trigger] texts(r@)[j],
            #[trigger] texts(r@)[k],
        ) by {
            let m = choose|m: int| 0 <= m < t.len() && t[m] == texts(r@)[k];
            if is_under(texts(r@)[j], texts(r@)[k]) {
                assert(is_under(texts(r@)[j], t[m]));
            }
        }
        assert forall|i2: int| 0 <= i2 < dirs@.len() implies is_covered(texts(r@), #[trigger] t[i2]) by {
            assert(t.contains(t[i2]));
            lemma_outermost_cover(t, texts(r@), t[i2]);
        }
    }
    r
}

/// The directories from which the filters' matches are searched: each
/// filter's root, once, leaving out a root that lies inside another root,
/// since that one's walk reaches it already.
pub fn extract_paths(filters: &Vec<String>) -> (r: Vec<String>)
    ensures
        texts(r@).no_duplicates(),
        none_nested(texts(r@)),
        forall|j: int| 0 <= j < r@.len() ==> roots_of(filters@).contains(#[trigger] texts(r@)[j]),
        forall|i: int|
            0 <= i < filters@.len() ==> is_covered(texts(r@), #[trigger] roots_of(filters@)[i]),
{
    let mut dirs: Vec<String> = Vec::new();
    let mut i: usize = 0;
    assert(roots_of(filters@.take(0)).to_set() =~= Set::<Seq<char>>::empty());
    assert(texts(dirs@).to_set() =~= Set::<Seq<char>>::empty());
    while i < filters.len()
        invariant
            i <= filters@.len(),
            texts(dirs@).no_duplicates(),
            texts(dirs@).to_set() == roots_of(filters@.take(i as int)).to_set(),
        decreases filters@.len() - i,
    {
        let root = search_root(filters[i].as_str());
        proof {
            assert(roots_of(filters@.take(i + 1)) =~= roots_of(filters@.take(i as int)).push(root@));
            roots_of(filters@.take(i as int)).lemma_push_to_set_commute(root@);
        }
        if !contains_text(&dirs, root.as_str()) {
            let ghost before = dirs@;
            dirs.push(root);
            proof {
                assert(texts(dirs@) =~= texts(before).push(root@));
                texts(before).lemma_push_to_set_commute(root@);
            }
        } else {
            proof {
                assert(texts(dirs@).to_set().contains(root@));
                assert(texts(dirs@).to_set().insert(root@) =~= texts(dirs@).to_set());
            }
        }
        i = i + 1;
    }
    assert(filters@.take(filters@.len() as int) =~= filters@);
    let r = outermost(&dirs);
    proof {
        let t = texts(dirs@);
        let rs = roots_of(filters@);
        assert forall|j: int| 0 <= j < r@.len() implies rs.contains(#[trigger] texts(r@)[j]) by {
            assert(t.to_set().contains(texts(r@)[j]));
        }
        assert forall|i2: int| 0 <= i2 < filters@.len() implies is_covered(texts(r@), #[trigger] rs[i2]) by {
            assert(rs.to_set().contains(rs[i2]));
            let m = choose|m: int| 0 <= m < t.len() && t[m] == rs[i2];
            assert(is_covered(texts(r@), t[m]));
        }
    }
    r
}

} // verus!
