//! Comparison of a line with an expected pattern in which `[..]` matches any
//! run of characters.
use vstd::prelude::*;

verus! {

/// The wildcard `[..]`.
pub open spec fn wildcard() -> Seq<char> {
    seq!['[', '.', '.', ']']
}

/// `s` with each pair of backslashes, and then each remaining backslash,
/// replaced by a forward slash.
pub open spec fn normalize_slashes(s: Seq<char>) -> Seq<char>
    decreases s.len(),
{
    if s.len() == 0 {
        Seq::empty()
    } else if s.len() >= 2 && s[0] == '\\' && s[1] == '\\' {
        seq!['/'] + normalize_slashes(s.subrange(2, s.len() as int))
    } else if s[0] == '\\' {
        seq!['/'] + normalize_slashes(s.subrange(1, s.len() as int))
    } else {
        seq![s[0]] + normalize_slashes(s.subrange(1, s.len() as int))
    }
}

/// `needle` occurs in `hay` at index `j`.
pub open spec fn occurs_at(hay: Seq<char>, needle: Seq<char>, j: int) -> bool {
    0 <= j && j + needle.len() <= hay.len() && hay.subrange(j, j + needle.len()) == needle
}

/// `j` is the first index at which `needle` occurs in `hay`.
pub open spec fn is_first_occurrence(hay: Seq<char>, needle: Seq<char>, j: int) -> bool {
    occurs_at(hay, needle, j) && forall|i: int| 0 <= i < j ==> !#[trigger] occurs_at(hay, needle, i)
}

/// The first index at which `needle` occurs in `hay`, if any.
pub open spec fn first_occurrence(hay: Seq<char>, needle: Seq<char>) -> Option<int> {
    if exists|j: int| #[trigger] is_first_occurrence(hay, needle, j) {
        Some(choose|j: int| #[trigger] is_first_occurrence(hay, needle, j))
    } else {
        None
    }
}

/// The parts of `e` between its wildcards, in order.
pub open spec fn split_parts(e: Seq<char>) -> Seq<Seq<char>>
    decreases e.len(),
{
    match first_occurrence(e, wildcard()) {
        Some(k) => if 0 <= k && k + 4 <= e.len() {
            seq![e.subrange(0, k)] + split_parts(e.subrange(k + 4, e.len() as int))
        } else {
            seq![e]
        },
        None => seq![e],
    }
}

/// Matches `parts` one after another against `actual`, each at its first
/// occurrence in what the previous ones left; the first part must stand at
/// the start when `anchored`. What remains of `actual`, or none where a part
/// is missing.
pub open spec fn match_parts(parts: Seq<Seq<char>>, actual: Seq<char>, anchored: bool) -> Option<
    Seq<char>,
>
    decreases parts.len(),
{
    if parts.len() == 0 {
        Some(actual)
    } else {
        match first_occurrence(actual, parts[0]) {
            None => None,
            Some(j) => if anchored && j != 0 {
                None
            } else {
                match_parts(
                    parts.subrange(1, parts.len() as int),
                    actual.subrange(j + parts[0].len(), actual.len() as int),
                    false,
                )
            },
        }
    }
}

/// `s` ends with a wildcard.
pub open spec fn ends_with_wildcard(s: Seq<char>) -> bool {
    s.len() >= 4 && s.subrange(s.len() - 4, s.len() as int) == wildcard()
}

/// A line matches a pattern when, slashes normalized in both, the parts
/// between the pattern's wildcards are found in order, the first at the
/// start, and nothing is left after the last unless the pattern ends in a
/// wildcard.
pub open spec fn line_matches(expected: Seq<char>, actual: Seq<char>) -> bool {
    let e = normalize_slashes(expected);
    match match_parts(split_parts(e), normalize_slashes(actual), true) {
        Some(rest) => rest.len() == 0 || ends_with_wildcard(e),
        None => false,
    }
}

/// The characters of a string.
pub(crate) fn chars_of(s: &str) -> (r: Vec<char>)
    ensures
        r@ == s@,
{
    let n = s.unicode_len();
    let mut r: Vec<char> = Vec::new();
    let mut i: usize = 0;
    while i < n
        invariant
            n == s@.len(),
            i <= n,
            r@ == s@.subrange(0, i as int),
        decreases n - i,
    {
        r.push(s.get_char(i));
        i = i + 1;
    }
    assert(r@ == s@);
    r
}

/// Replaces pairs of backslashes, then single ones, by forward slashes.
fn normalize(s: &Vec<char>) -> (r: Vec<char>)
    ensures
        r@ == normalize_slashes(s@),
{
    let mut r: Vec<char> = Vec::new();
    let mut i: usize = 0;
    assert(r@ + normalize_slashes(s@.subrange(0, s@.len() as int)) == normalize_slashes(s@)) by {
        assert(s@.subrange(0, s@.len() as int) == s@);
    }
    while i < s.len()
        invariant
            i <= s@.len(),
            normalize_slashes(s@) == r@ + normalize_slashes(s@.subrange(i as int, s@.len() as int)),
        decreases s@.len() - i,
    {
        let ghost rest = s@.subrange(i as int, s@.len() as int);
        let ghost before = r@;
        if i + 1 < s.len() && s[i] == '\\' && s[i + 1] == '\\' {
            assert(rest.subrange(2, rest.len() as int) == s@.subrange(i + 2, s@.len() as int));
            r.push('/');
            i = i + 2;
        } else {
            assert(rest.subrange(1, rest.len() as int) == s@.subrange(i + 1, s@.len() as int));
            if s[i] == '\\' {
                r.push('/');
            } else {
                r.push(s[i]);
            }
            i = i + 1;
        }
        assert(normalize_slashes(s@) == r@ + normalize_slashes(s@.subrange(i as int, s@.len() as int))) by {
            assert(before + (seq![r@.last()] + normalize_slashes(s@.subrange(i as int, s@.len() as int))) == r@
                + normalize_slashes(s@.subrange(i as int, s@.len() as int)));
        }
    }
    assert(r@ + normalize_slashes(s@.subrange(i as int, s@.len() as int)) == r@);
    r
}

/// Whether `needle[ns..ns + m]` stands in `hay` at `j`.
pub(crate) fn stands_at(hay: &Vec<char>, j: usize, needle: &Vec<char>, ns: usize, m: usize) -> (r: bool)
    requires
        j + m <= hay@.len(),
        ns + m <= needle@.len(),
    ensures
        r == (hay@.subrange(j as int, j + m) == needle@.subrange(ns as int, ns + m)),
{
    let hl = hay.len();
    let nl = needle.len();
    let mut t: usize = 0;
    while t < m
        invariant
            t <= m,
            hl == hay@.len(),
            nl == needle@.len(),
            j + m <= hay@.len(),
            ns + m <= needle@.len(),
            forall|u: int| 0 <= u < t ==> hay@[j + u] == #[trigger] needle@[ns + u],
        decreases m - t,
    {
        if hay[j + t] != needle[ns + t] {
            assert(hay@.subrange(j as int, j + m)[t as int] != needle@.subrange(ns as int, ns + m)[t as int]);
            return false;
        }
        t = t + 1;
    }
    assert forall|u: int| 0 <= u < m implies #[trigger] hay@.subrange(j as int, j + m)[u] == needle@.subrange(
        ns as int,
        ns + m,
    )[u] by {
        assert(hay@[j + u] == needle@[ns + u]);
    }
    assert(hay@.subrange(j as int, j + m) =~= needle@.subrange(ns as int, ns + m));
    true
}

/// The first index at or after `from` where `needle[ns..ne]` occurs in `hay`.
pub(crate) fn find_from(hay: &Vec<char>, from: usize, needle: &Vec<char>, ns: usize, ne: usize) -> (r: Option<usize>)
    requires
        from <= hay@.len(),
        ns <= ne <= needle@.len(),
    ensures
        match first_occurrence(hay@.subrange(from as int, hay@.len() as int), needle@.subrange(ns as int, ne as int)) {
            Some(j) => r.is_some() && r.unwrap() == from + j,
            None => r.is_none(),
        },
{
    let ghost h = hay@.subrange(from as int, hay@.len() as int);
    let ghost n = needle@.subrange(ns as int, ne as int);
    let m = ne - ns;
    let mut j: usize = from;
    while m <= hay.len() - j
        invariant
            from <= j <= hay@.len(),
            m == n.len(),
            m == ne - ns,
            h == hay@.subrange(from as int, hay@.len() as int),
            n == needle@.subrange(ns as int, ne as int),
            ns <= ne <= needle@.len(),
            forall|i: int| 0 <= i < j - from ==> !#[trigger] occurs_at(h, n, i),
        decreases hay@.len() - j,
    {
        let here = stands_at(hay, j, needle, ns, m);
        assert(h.subrange(j - from, j - from + m) == hay@.subrange(j as int, j + m));
        if here {
            proof {
                assert(is_first_occurrence(h, n, j - from));
                let c = choose|c: int| #[trigger] is_first_occurrence(h, n, c);
                if c < j - from {
                    assert(!occurs_at(h, n, c));
                }
                if c > j - from {
                    assert(!occurs_at(h, n, j - from));
                }
            }
            return Some(j);
        }
        if m == 0 {
            assert(hay@.subrange(j as int, j + m) =~= needle@.subrange(ns as int, ns + m));
        }
        j = j + 1;
    }
    proof {
        assert forall|c: int| !#[trigger] is_first_occurrence(h, n, c) by {
            if is_first_occurrence(h, n, c) {
                assert(c < j - from);
            }
        }
    }
    None
}

/// Compares a line with an expected pattern in which `[..]` matches any run
/// of characters on the line. Backslashes count as forward slashes on both
/// sides, a doubled one as a single slash.
pub fn lines_match(expected: &str, actual: &str) -> (r: bool)
    ensures
        r == line_matches(expected@, actual@),
{
    let e = normalize(&chars_of(expected));
    let a = normalize(&chars_of(actual));
    let w: Vec<char> = vec!['[', '.', '.', ']'];
    assert(w@.subrange(0, 4) =~= wildcard());
    let el = e.len();
    let al = a.len();
    let mut p: usize = 0;
    let mut q: usize = 0;
    let mut anchored = true;
    assert(e@.subrange(0, e@.len() as int) == e@);
    assert(a@.subrange(0, a@.len() as int) == a@);
    loop
        invariant
            el == e@.len(),
            al == a@.len(),
            p <= e@.len(),
            q <= a@.len(),
            w@.len() == 4,
            w@.subrange(0, 4) == wildcard(),
            match_parts(split_parts(e@.subrange(p as int, e@.len() as int)), a@.subrange(q as int, a@.len() as int), anchored)
                == match_parts(split_parts(normalize_slashes(expected@)), normalize_slashes(actual@), true),
            e@ == normalize_slashes(expected@),
            a@ == normalize_slashes(actual@),
        decreases e@.len() - p,
    {
        let ghost ep = e@.subrange(p as int, e@.len() as int);
        let ghost aq = a@.subrange(q as int, a@.len() as int);
        let k = find_from(&e, p, &w, 0, 4);
        let part_end = match k {
            Some(k) => k,
            None => e.len(),
        };
        proof {
            if let Some(kk) = first_occurrence(ep, wildcard()) {
                assert(is_first_occurrence(ep, wildcard(), kk));
                assert(part_end == p + kk);
                assert(part_end + 4 <= el);
                assert(ep.subrange(0, kk) == e@.subrange(p as int, part_end as int));
                assert(ep.subrange(kk + 4, ep.len() as int) == e@.subrange(part_end + 4, e@.len() as int));
                let parts = split_parts(ep);
                assert(parts[0] == e@.subrange(p as int, part_end as int));
                assert(parts.subrange(1, parts.len() as int) == split_parts(
                    e@.subrange(part_end + 4, e@.len() as int),
                ));
            } else {
                assert(ep == e@.subrange(p as int, part_end as int));
                assert(split_parts(ep).subrange(1, 1) == Seq::<Seq<char>>::empty());
            }
        }
        assert(p <= part_end <= e@.len());
        let j = match find_from(&a, q, &e, p, part_end) {
            Some(j) => j,
            None => return false,
        };
        if anchored && j != q {
            return false;
        }
        let ghost jj = j - q;
        proof {
            let part = e@.subrange(p as int, part_end as int);
            let c = first_occurrence(aq, part).unwrap();
            assert(is_first_occurrence(aq, part, c));
            assert(c == jj);
            assert(part.len() == part_end - p);
        }
        q = j + (part_end - p);
        assert(aq.subrange(jj + (part_end - p), aq.len() as int) == a@.subrange(q as int, a@.len() as int));
        anchored = false;
        match k {
            Some(k) => {
                p = k + 4;
            },
            None => {
                assert(split_parts(ep).subrange(1, 1) == Seq::<Seq<char>>::empty());
                assert(match_parts(Seq::<Seq<char>>::empty(), a@.subrange(q as int, a@.len() as int), false) == Some(
                    a@.subrange(q as int, a@.len() as int),
                ));
                let ends = e.len() >= 4 && stands_at(&e, e.len() - 4, &w, 0, 4);
                return q == a.len() || ends;
            },
        }
    }
}

} // verus!
