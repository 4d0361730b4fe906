//! An immutable snapshot of the workspace as the semantic database answers
//! for it: each file's syntax, the classified occurrences its usage search
//! reports, and the navigation target of each definition.
use vstd::prelude::*;
use crate::defs::{
    in_scope, scope_view, Definition, NavigationTarget, NavigationTargetView, Reference, ScopeEntry,
    SearchScope,
};
use crate::syntax::SyntaxTree;
use crate::text::FileId;

verus! {

/// The syntax of one file.
#[derive(Debug)]
pub struct SourceFile {
    pub file_id: FileId,
    pub tree: SyntaxTree,
}

/// One occurrence of a definition, as the usage search reports it.
#[derive(Clone, Copy, Debug, PartialEq, Eq, Structural)]
pub struct Usage {
    pub def: Definition,
    pub reference: Reference,
}

/// Where a definition is declared.
#[derive(Debug)]
pub struct NavEntry {
    pub def: Definition,
    pub target: NavigationTarget,
}

/// A snapshot of the workspace. `usages` lists every occurrence in the
/// order the usage search walks the files.
#[derive(Debug)]
pub struct Analysis {
    pub files: Vec<SourceFile>,
    pub usages: Vec<Usage>,
    pub nav_targets: Vec<NavEntry>,
}

/// The occurrences of `d` that lie in `scope`, in the order of `us`.
pub open spec fn usages_of(us: Seq<Usage>, d: Definition, scope: Option<Seq<ScopeEntry>>) -> Seq<Reference>
    decreases us.len(),
{
    if us.len() == 0 {
        Seq::empty()
    } else {
        let prev = usages_of(us.drop_last(), d, scope);
        let u = us.last();
        if u.def == d && in_scope(scope, u.reference.file_range) {
            prev.push(u.reference)
        } else {
            prev
        }
    }
}

/// Entry `i` is the first that declares `d`.
pub open spec fn is_first_nav(navs: Seq<NavEntry>, i: int, d: Definition) -> bool {
    &&& 0 <= i < navs.len()
    &&& navs[i].def == d
    &&& forall|j: int| 0 <= j < i ==> #[trigger] navs[j].def != d
}

/// The navigation target of `d`, from the first entry that declares it.
pub open spec fn nav_of(navs: Seq<NavEntry>, d: Definition) -> Option<NavigationTargetView> {
    if exists|i: int| #[trigger] is_first_nav(navs, i, d) {
        Some(navs[choose|i: int| #[trigger] is_first_nav(navs, i, d)].target@)
    } else {
        None
    }
}

/// File `i` is the first with identity `id`.
pub open spec fn is_first_file(files: Seq<SourceFile>, i: int, id: FileId) -> bool {
    &&& 0 <= i < files.len()
    &&& files[i].file_id == id
    &&& forall|j: int| 0 <= j < i ==> #[trigger] files[j].file_id != id
}

/// The index of the file with identity `id`.
pub open spec fn file_of(files: Seq<SourceFile>, id: FileId) -> Option<usize> {
    if exists|i: int| #[trigger] is_first_file(files, i, id) {
        Some(choose|i: usize| #[trigger] is_first_file(files, i as int, id))
    } else {
        None
    }
}

impl Analysis {
    /// Every file's tree is well formed.
    pub open spec fn wf(&self) -> bool {
        forall|i: int| 0 <= i < self.files@.len() ==> (#[trigger] self.files@[i]).tree.wf()
    }

    /// The index of the file with identity `id`.
    pub fn file_index(&self, id: FileId) -> (r: Option<usize>)
        ensures
            r == file_of(self.files@, id),
    {
        let mut i: usize = 0;
        while i < self.files.len()
            invariant
                i <= self.files@.len(),
                forall|j: int| 0 <= j < i ==> #[trigger] self.files@[j].file_id != id,
            decreases self.files@.len() - i,
        {
            if self.files[i].file_id == id {
                proof {
                    assert(is_first_file(self.files@, i as int, id));
                    let c = choose|c: usize| #[trigger] is_first_file(self.files@, c as int, id);
                    if c < i {
                        assert(self.files@[c as int].file_id != id);
                    }
                    if c > i {
                        assert(self.files@[i as int].file_id != id);
                    }
                }
                return Some(i);
            }
            i = i + 1;
        }
        None
    }

    /// The occurrences of `d` that the usage search reports within `scope`,
    /// the whole workspace where there is none, in the order it walks them.
    pub fn find_usages(&self, d: Definition, scope: Option<&SearchScope>) -> (r: Vec<Reference>)
        ensures
            r@ == usages_of(self.usages@, d, scope_view(scope)),
    {
        let mut r: Vec<Reference> = Vec::new();
        let mut i: usize = 0;
        while i < self.usages.len()
            invariant
                i <= self.usages@.len(),
                r@ == usages_of(self.usages@.subrange(0, i as int), d, scope_view(scope)),
            decreases self.usages@.len() - i,
        {
            let u = self.usages[i];
            let wanted = match scope {
                Some(s) => s.contains(&u.reference.file_range),
                None => true,
            };
            assert(self.usages@.subrange(0, i + 1).drop_last() == self.usages@.subrange(0, i as int));
            if u.def == d && wanted {
                r.push(u.reference);
            }
            i = i + 1;
        }
        assert(self.usages@.subrange(0, i as int) == self.usages@);
        r
    }

    /// The navigation target of `d`, where the snapshot has one.
    pub fn try_to_nav(&self, d: Definition) -> (r: Option<NavigationTarget>)
        ensures
            match r {
                Some(n) => nav_of(self.nav_targets@, d) == Some(n@),
                None => nav_of(self.nav_targets@, d).is_none(),
            },
    {
        let mut i: usize = 0;
        while i < self.nav_targets.len()
            invariant
                i <= self.nav_targets@.len(),
                forall|j: int| 0 <= j < i ==> #[trigger] self.nav_targets@[j].def != d,
            decreases self.nav_targets@.len() - i,
        {
            if self.nav_targets[i].def == d {
                proof {
                    assert(is_first_nav(self.nav_targets@, i as int, d));
                    let c = choose|c: int| #[trigger] is_first_nav(self.nav_targets@, c, d);
                    if c < i {
                        assert(self.nav_targets@[c].def != d);
                    }
                    if c > i {
                        assert(self.nav_targets@[i as int].def != d);
                    }
                }
                return Some(self.nav_targets[i].target.duplicate());
            }
            i = i + 1;
        }
        None
    }
}

} // verus!
