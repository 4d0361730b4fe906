//! Locations inside the project's source tree.
use vstd::prelude::*;

verus! {

/// `s` is a proper prefix of `p`.
pub open spec fn is_proper_prefix(s: Seq<char>, p: Seq<char>) -> bool {
    s.len() < p.len() && p.subrange(0, s.len() as int) == s
}

/// A plain absolute path: it starts with `/`, does not end with one, has no
/// empty component, and holds no `\`, `:` or `.`, so that it reads the same
/// on every platform and has no `.` or `..` component.
pub open spec fn is_plain_path(p: Seq<char>) -> bool {
    &&& p.len() >= 2
    &&& p[0] == '/'
    &&& p[p.len() - 1] != '/'
    &&& forall|i: int| 0 <= i < p.len() ==> #[trigger] p[i] != '\\' && p[i] != ':' && p[i] != '.'
    &&& forall|i: int| 0 <= i < p.len() - 1 ==> !(#[trigger] p[i] == '/' && p[i + 1] == '/')
}

/// The index of the last `/` of `p`, or -1 where it has none.
pub open spec fn last_slash(p: Seq<char>) -> int
    decreases p.len(),
{
    if p.len() == 0 {
        -1
    } else if p[p.len() - 1] == '/' {
        p.len() - 1
    } else {
        last_slash(p.drop_last())
    }
}

/// The parent of a plain path: all before its last `/`, or the root where
/// that `/` is the first character.
pub open spec fn plain_parent(p: Seq<char>) -> Seq<char> {
    if last_slash(p) <= 0 {
        seq!['/']
    } else {
        p.subrange(0, last_slash(p))
    }
}

/// The last `/` is a `/`, and none follows it.
pub proof fn lemma_last_slash(p: Seq<char>)
    ensures
        -1 <= last_slash(p) < p.len(),
        last_slash(p) >= 0 ==> p[last_slash(p)] == '/',
        forall|j: int| last_slash(p) < j < p.len() ==> #[trigger] p[j] != '/',
    decreases p.len(),
{
    if p.len() > 0 && p[p.len() - 1] != '/' {
        lemma_last_slash(p.drop_last());
        assert forall|j: int| last_slash(p) < j < p.len() implies #[trigger] p[j] != '/' by {
            if j < p.len() - 1 {
                assert(p.drop_last()[j] == p[j]);
            }
        }
    }
}

/// The parent of a plain path whose last `/` is not its first character is
/// plain too.
pub proof fn lemma_plain_parent_plain(p: Seq<char>)
    requires
        is_plain_path(p),
        last_slash(p) > 0,
    ensures
        is_plain_path(plain_parent(p)),
{
    lemma_last_slash(p);
    let k = last_slash(p);
    assert(p[k - 1] != '/');
    let q = plain_parent(p);
    assert forall|i: int| 0 <= i < q.len() implies #[trigger] q[i] != '\\' && q[i] != ':' && q[i] != '.' by {
        assert(q[i] == p[i]);
    }
    assert forall|i: int| 0 <= i < q.len() - 1 implies !(#[trigger] q[i] == '/' && q[i + 1] == '/') by {
        assert(q[i] == p[i] && q[i + 1] == p[i + 1]);
    }
}

/// Relies on `std::path::Path::parent`: the path without its final
/// component, which is a proper prefix of it; none for a root or an empty
/// path. For a plain path that is everything before its last `/` (the root
/// where that is the first character), and the root `/` has none.
#[verifier::external_body]
fn parent_dir(p: &str) -> (r: Option<String>)
    ensures
        match r {
            Some(s) => is_proper_prefix(s@, p@),
            None => true,
        },
        is_plain_path(p@) ==> r.is_some() && r.unwrap()@ == plain_parent(p@),
        p@ == seq!['/'] ==> r.is_none(),
{
    std::path::Path::new(p).parent().map(|d| d.to_string_lossy().into_owned())
}

/// The root of the project, two directories above a crate's manifest
/// directory; none where the path has fewer levels. For a plain path with
/// at least two components the result is its grandparent, and for one with
/// a single component there is none.
pub fn project_dir(manifest_dir: &str) -> (r: Option<String>)
    ensures
        match r {
            Some(s) => is_proper_prefix(s@, manifest_dir@),
            None => true,
        },
        is_plain_path(manifest_dir@) && last_slash(manifest_dir@) > 0 ==> r.is_some() && r.unwrap()@
            == plain_parent(plain_parent(manifest_dir@)),
        is_plain_path(manifest_dir@) && last_slash(manifest_dir@) <= 0 ==> r.is_none(),
{
    proof {
        if is_plain_path(manifest_dir@) && last_slash(manifest_dir@) > 0 {
            lemma_plain_parent_plain(manifest_dir@);
        }
    }
    let crates = parent_dir(manifest_dir)?;
    let root = parent_dir(crates.as_str())?;
    assert(manifest_dir@.subrange(0, root@.len() as int) == crates@.subrange(0, root@.len() as int));
    Some(root)
}

} // verus!
