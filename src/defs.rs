//! What a name can refer to, and the occurrences that a search reports.
use vstd::prelude::*;
use crate::syntax::SyntaxKind;
use crate::text::{FileId, FileRange, TextRange};

verus! {

/// Canonical identity of a declared entity. Each variant carries the
/// semantic database's symbol id; two occurrences denote the same entity
/// exactly when they resolve to equal values.
#[derive(Clone, Copy, Debug, PartialEq, Eq, Structural)]
pub enum Definition {
    Local(u32),
    Field(u32),
    Function(u32),
    Adt(u32),
    Variant(u32),
    Module(u32),
    Macro(u32),
    Const(u32),
    Static(u32),
    Trait(u32),
    TypeAlias(u32),
    BuiltinType(u32),
    SelfType(u32),
    TypeParam(u32),
}

} // verus!

verus! {

/// How an occurrence refers to its definition.
#[derive(Clone, Copy, Debug, PartialEq, Eq, Structural)]
pub enum ReferenceKind {
    /// A construction expression of a type.
    StructLiteral,
    /// Any other occurrence.
    Other,
}

/// Whether an occurrence of a value-producing binding reads or writes it.
#[derive(Clone, Copy, Debug, PartialEq, Eq, Structural)]
pub enum ReferenceAccess {
    Read,
    Write,
}

/// One occurrence, already classified by kind and access.
#[derive(Clone, Copy, Debug, PartialEq, Eq, Structural)]
pub struct Reference {
    pub file_range: FileRange,
    pub kind: ReferenceKind,
    pub access: Option<ReferenceAccess>,
}

/// A search for `requested` keeps an occurrence of kind `found`: a request
/// for `Other` keeps everything, any other request only its own kind.
pub open spec fn kind_accepted(requested: ReferenceKind, found: ReferenceKind) -> bool {
    requested == ReferenceKind::Other || requested == found
}

pub fn accepts_kind(requested: ReferenceKind, found: ReferenceKind) -> (r: bool)
    ensures
        r == kind_accepted(requested, found),
{
    requested == ReferenceKind::Other || requested == found
}

/// Whether access is a meaningful notion for a definition: only locals and
/// fields produce values that are read and written.
pub open spec fn has_access(d: Definition) -> bool {
    match d {
        Definition::Local(_) | Definition::Field(_) => true,
        _ => false,
    }
}

/// A renderable location of a definition.
#[derive(Clone, Debug, PartialEq, Eq)]
pub struct NavigationTarget {
    pub file_id: FileId,
    pub full_range: TextRange,
    pub focus_range: Option<TextRange>,
    pub name: String,
    pub kind: SyntaxKind,
}

/// The value of a navigation target, its name as characters.
pub struct NavigationTargetView {
    pub file_id: FileId,
    pub full_range: TextRange,
    pub focus_range: Option<TextRange>,
    pub name: Seq<char>,
    pub kind: SyntaxKind,
}

impl NavigationTargetView {
    /// The span to highlight: the focus range where there is one, else the
    /// full range.
    pub open spec fn range(self) -> TextRange {
        match self.focus_range {
            Some(r) => r,
            None => self.full_range,
        }
    }
}

impl NavigationTarget {
    pub open spec fn view(&self) -> NavigationTargetView {
        NavigationTargetView {
            file_id: self.file_id,
            full_range: self.full_range,
            focus_range: self.focus_range,
            name: self.name@,
            kind: self.kind,
        }
    }

    pub fn file_id(&self) -> (r: FileId)
        ensures
            r == self@.file_id,
    {
        self.file_id
    }

    pub fn range(&self) -> (r: TextRange)
        ensures
            r == self@.range(),
    {
        match self.focus_range {
            Some(r) => r,
            None => self.full_range,
        }
    }

    pub fn duplicate(&self) -> (r: NavigationTarget)
        ensures
            r@ == self@,
    {
        NavigationTarget {
            file_id: self.file_id,
            full_range: self.full_range,
            focus_range: self.focus_range,
            name: self.name.clone(),
            kind: self.kind,
        }
    }
}

/// One file of a search scope, optionally narrowed to a span of it.
#[derive(Clone, Copy, Debug, PartialEq, Eq, Structural)]
pub struct ScopeEntry {
    pub file_id: FileId,
    pub range: Option<TextRange>,
}

/// The files a usage search may report from.
#[derive(Clone, Debug)]
pub struct SearchScope {
    pub entries: Vec<ScopeEntry>,
}

/// An occurrence lies in a scope entry: same file, and inside its span
/// where it has one.
pub open spec fn entry_covers(e: ScopeEntry, fr: FileRange) -> bool {
    &&& e.file_id == fr.file_id
    &&& match e.range {
        Some(r) => r.covers(fr.range),
        None => true,
    }
}

/// An occurrence lies in the scope: every occurrence lies in the whole
/// workspace, and in a restricted scope exactly when one entry covers it.
pub open spec fn in_scope(scope: Option<Seq<ScopeEntry>>, fr: FileRange) -> bool {
    match scope {
        None => true,
        Some(es) => scope_covers(es, fr),
    }
}

/// Some entry of a restricted scope covers the occurrence.
pub open spec fn scope_covers(es: Seq<ScopeEntry>, fr: FileRange) -> bool {
    exists|i: int| 0 <= i < es.len() && #[trigger] entry_covers(es[i], fr)
}

impl SearchScope {
    pub open spec fn view(&self) -> Seq<ScopeEntry> {
        self.entries@
    }

    /// The scope of one whole file.
    pub fn single_file(file_id: FileId) -> (r: SearchScope)
        ensures
            r@ == seq![ScopeEntry { file_id, range: None }],
    {
        SearchScope { entries: vec![ScopeEntry { file_id, range: None }] }
    }

    /// The scope of several whole files.
    pub fn files(ids: &Vec<FileId>) -> (r: SearchScope)
        ensures
            r@.len() == ids@.len(),
            forall|i: int| 0 <= i < ids@.len() ==> #[trigger] r@[i] == (ScopeEntry { file_id: ids@[i], range: None }),
    {
        let mut entries: Vec<ScopeEntry> = Vec::new();
        let mut i: usize = 0;
        while i < ids.len()
            invariant
                i <= ids@.len(),
                entries@.len() == i,
                forall|j: int| 0 <= j < i ==> #[trigger] entries@[j] == (ScopeEntry { file_id: ids@[j], range: None }),
            decreases ids@.len() - i,
        {
            entries.push(ScopeEntry { file_id: ids[i], range: None });
            i = i + 1;
        }
        SearchScope { entries }
    }

    /// Whether an occurrence lies in this scope.
    pub fn contains(&self, fr: &FileRange) -> (r: bool)
        ensures
            r == scope_covers(self@, *fr),
    {
        let mut i: usize = 0;
        while i < self.entries.len()
            invariant
                i <= self@.len(),
                forall|j: int| 0 <= j < i ==> !entry_covers(#[trigger] self@[j], *fr),
            decreases self@.len() - i,
        {
            let e = self.entries[i];
            let covered = match e.range {
                Some(r) => r.contains_range(&fr.range),
                None => true,
            };
            if e.file_id == fr.file_id && covered {
                assert(entry_covers(self@[i as int], *fr));
                return true;
            }
            i = i + 1;
        }
        false
    }
}

/// The view of an optional scope.
pub open spec fn scope_view(scope: Option<&SearchScope>) -> Option<Seq<ScopeEntry>> {
    match scope {
        Some(s) => Some(s@),
        None => None,
    }
}

} // verus!
