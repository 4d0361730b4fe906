//! Find all references: resolve the name under the cursor to one
//! definition, then gather its occurrences across a scope of files.
//!
//! The element at the cursor must be a name (a binder) or a name reference.
//! A cursor right before the `{` or `(` that follows a struct's name asks
//! for the struct's construction sites only.
use vstd::prelude::*;
use crate::analysis::{file_of, nav_of, usages_of, Analysis, Usage};
use crate::defs::{
    accepts_kind, entry_covers, has_access, in_scope, kind_accepted, scope_view, Definition, NavigationTarget,
    NavigationTargetView, Reference, ReferenceAccess, ReferenceKind, ScopeEntry, SearchScope,
};
use crate::syntax::{
    first_child, first_pat_child, has_child_token, has_expr_child, nearest_ancestor, node_at,
    node_at_descend, tokens_around, Element, SyntaxKind, SyntaxTree,
};
use crate::text::{FileId, FilePosition, FileRange, TextRange};

verus! {

/// The declaration site of a searched definition.
#[derive(Clone, Debug, PartialEq, Eq)]
pub struct Declaration {
    pub nav: NavigationTarget,
    pub kind: ReferenceKind,
    pub access: Option<ReferenceAccess>,
}

/// The value of a declaration.
pub struct DeclarationView {
    pub nav: NavigationTargetView,
    pub kind: ReferenceKind,
    pub access: Option<ReferenceAccess>,
}

impl Declaration {
    pub open spec fn view(&self) -> DeclarationView {
        DeclarationView { nav: self.nav@, kind: self.kind, access: self.access }
    }
}

impl DeclarationView {
    /// The declaration as an occurrence: the file and span of its target.
    pub open spec fn as_reference(self) -> Reference {
        Reference {
            file_range: FileRange { file_id: self.nav.file_id, range: self.nav.range() },
            kind: self.kind,
            access: self.access,
        }
    }
}

/// A declaration followed by the occurrences found, in search order.
#[derive(Clone, Debug, PartialEq, Eq)]
pub struct ReferenceSearchResult {
    declaration: Declaration,
    references: Vec<Reference>,
}

/// The value of a search result.
pub struct ReferenceSearchResultView {
    pub declaration: DeclarationView,
    pub references: Seq<Reference>,
}

impl ReferenceSearchResultView {
    /// The number of occurrences, the declaration included.
    pub open spec fn total_count(self) -> nat {
        self.references.len() + 1
    }
}

impl ReferenceSearchResult {
    pub closed spec fn view(&self) -> ReferenceSearchResultView {
        ReferenceSearchResultView { declaration: self.declaration@, references: self.references@ }
    }

    pub fn declaration(&self) -> (r: &Declaration)
        ensures
            r@ == self@.declaration,
    {
        &self.declaration
    }

    pub fn decl_target(&self) -> (r: &NavigationTarget)
        ensures
            r@ == self@.declaration.nav,
    {
        &self.declaration.nav
    }

    pub fn references(&self) -> (r: &[Reference])
        ensures
            r@ == self@.references,
    {
        self.references.as_slice()
    }

    /// The number of occurrences, the declaration included.
    pub fn len(&self) -> (r: usize)
        requires
            self@.references.len() < usize::MAX,
        ensures
            r == self@.total_count(),
    {
        self.references.len() + 1
    }

    /// The occurrences as one sequence: the declaration first, then the
    /// references in the order they were found.
    pub fn into_iter(self) -> (r: Vec<Reference>)
        ensures
            r@.len() == self@.total_count(),
            r@[0] == self@.declaration.as_reference(),
            forall|i: int| 0 < i < r@.len() ==> #[trigger] r@[i] == self@.references[i - 1],
    {
        let ReferenceSearchResult { declaration, mut references } = self;
        let mut v: Vec<Reference> = Vec::new();
        v.push(
            Reference {
                file_range: FileRange { file_id: declaration.nav.file_id(), range: declaration.nav.range() },
                kind: declaration.kind,
                access: declaration.access,
            },
        );
        v.append(&mut references);
        v
    }
}

/// A value together with the span it was computed for.
#[derive(Clone, Debug, PartialEq, Eq)]
pub struct RangeInfo<T> {
    pub range: TextRange,
    pub info: T,
}

/// The name of the struct enclosing element `i`: the name child of its
/// nearest struct-definition ancestor.
pub open spec fn enclosing_struct_name(t: Seq<Element>, i: int) -> Option<usize> {
    match nearest_ancestor(t, i, SyntaxKind::StructDef) {
        Some(s) => first_child(t, s as int, SyntaxKind::Name),
        None => None,
    }
}

/// The struct a cursor right before a `{` or `(` names: the cursor falls
/// between two tokens, the right one opens a body, and the left one lies in
/// a struct's name or generic parameter list.
pub open spec fn struct_literal_name(t: Seq<Element>, offset: u32) -> Option<usize> {
    match tokens_around(t, offset) {
        None => None,
        Some((l, r)) => if t[r as int].kind != SyntaxKind::LCurly && t[r as int].kind != SyntaxKind::LParen {
            None
        } else {
            let at = t[l as int].range.start;
            match node_at_descend(t, SyntaxKind::Name, at) {
                Some(n) => enclosing_struct_name(t, n as int),
                None => if node_at_descend(t, SyntaxKind::TypeParamList, at).is_some() {
                    enclosing_struct_name(t, l as int)
                } else {
                    None
                },
            }
        },
    }
}

/// The element a query at `offset` starts from, with the kind of occurrence
/// it asks for: a struct for its construction sites, else the name, else the
/// name reference under the cursor.
pub open spec fn query_node(t: Seq<Element>, offset: u32) -> Option<(usize, ReferenceKind)> {
    match struct_literal_name(t, offset) {
        Some(n) => Some((n, ReferenceKind::StructLiteral)),
        None => match node_at_descend(t, SyntaxKind::Name, offset) {
            Some(n) => Some((n, ReferenceKind::Other)),
            None => match node_at_descend(t, SyntaxKind::NameRef, offset) {
                Some(n) => Some((n, ReferenceKind::Other)),
                None => None,
            },
        },
    }
}

/// The span, definition and requested kind a query at `offset` resolves
/// to; none where the element found does not resolve.
pub open spec fn resolve(t: Seq<Element>, offset: u32) -> Option<(TextRange, Definition, ReferenceKind)> {
    match query_node(t, offset) {
        Some((n, k)) => match t[n as int].resolves_to {
            Some(d) => Some((t[n as int].range, d, k)),
            None => None,
        },
        None => None,
    }
}

/// The `let` statement around `at` declares a mutable binding with an
/// initializer.
pub open spec fn is_mut_let_with_init(t: Seq<Element>, at: u32) -> bool {
    match node_at(t, SyntaxKind::LetStmt, at, false) {
        Some(s) => has_expr_child(t, s as int) && match first_pat_child(t, s as int) {
            Some(p) => t[p as int].kind == SyntaxKind::BindPat && has_child_token(
                t,
                p as int,
                SyntaxKind::MutKw,
            ),
            None => false,
        },
        None => false,
    }
}

/// The access of a declaration: a write where a local or field is declared
/// by `let mut` with an initializer, else none.
pub open spec fn declared_access(d: Definition, t: Seq<Element>, range: TextRange) -> Option<
    ReferenceAccess,
> {
    if has_access(d) && is_mut_let_with_init(t, range.start) {
        Some(ReferenceAccess::Write)
    } else {
        None
    }
}

/// The occurrences of `refs` that a search for kind `k` keeps, in order.
pub open spec fn of_kind(refs: Seq<Reference>, k: ReferenceKind) -> Seq<Reference> {
    refs.filter(|x: Reference| kind_accepted(k, x.kind))
}

/// The answer to a query: the span resolved at the cursor, the
/// declaration, and the occurrences in scope of the requested kind. The
/// declaration's access is read from the syntax of the file that declares
/// it.
pub open spec fn search_result(a: &Analysis, position: FilePosition, scope: Option<Seq<ScopeEntry>>) -> Option<
    (TextRange, ReferenceSearchResultView),
> {
    match file_of(a.files@, position.file_id) {
        None => None,
        Some(fi) => {
            let t = a.files@[fi as int].tree@;
            match resolve(t, position.offset) {
                None => None,
                Some((range, d, k)) => match nav_of(a.nav_targets@, d) {
                    None => None,
                    Some(nav) => Some(
                        (
                            range,
                            ReferenceSearchResultView {
                                declaration: DeclarationView {
                                    nav,
                                    kind: ReferenceKind::Other,
                                    access: match file_of(a.files@, nav.file_id) {
                                        Some(di) => declared_access(d, a.files@[di as int].tree@, nav.range()),
                                        None => None,
                                    },
                                },
                                references: of_kind(usages_of(a.usages@, d, scope), k),
                            },
                        ),
                    ),
                },
            }
        },
    }
}

/// The name of the struct whose construction sites a cursor right before
/// a `{` or `(` asks for.
pub fn get_struct_def_name_for_struct_literal_search(t: &SyntaxTree, offset: u32) -> (r: Option<usize>)
    requires
        t.wf(),
    ensures
        r == struct_literal_name(t@, offset),
{
    let (left, right) = match t.tokens_between(offset) {
        Some(pair) => pair,
        None => return None,
    };
    let rk = t.elements[right].kind;
    if rk != SyntaxKind::LCurly && rk != SyntaxKind::LParen {
        return None;
    }
    let at = t.elements[left].range.start;
    if let Some(name) = t.find_node_with_descend(SyntaxKind::Name, at) {
        return struct_name_above(t, name);
    }
    if t.find_node_with_descend(SyntaxKind::TypeParamList, at).is_some() {
        return struct_name_above(t, left);
    }
    None
}

/// The name of the struct enclosing element `i`.
fn struct_name_above(t: &SyntaxTree, i: usize) -> (r: Option<usize>)
    requires
        t.wf(),
        i < t@.len(),
    ensures
        r == enclosing_struct_name(t@, i as int),
{
    match t.ancestor_of_kind(i, SyntaxKind::StructDef) {
        Some(s) => t.first_child_of_kind(s, SyntaxKind::Name),
        None => None,
    }
}

/// The span and definition of the query's starting element: `opt_name`
/// where given, else the name reference under the cursor.
fn find_name(t: &SyntaxTree, offset: u32, opt_name: Option<usize>) -> (r: Option<(TextRange, Definition)>)
    requires
        t.wf(),
        match opt_name {
            Some(n) => n < t@.len(),
            None => true,
        },
    ensures
        r == match opt_name {
            Some(n) => match t@[n as int].resolves_to {
                Some(d) => Some((t@[n as int].range, d)),
                None => None,
            },
            None => match node_at_descend(t@, SyntaxKind::NameRef, offset) {
                Some(n) => match t@[n as int].resolves_to {
                    Some(d) => Some((t@[n as int].range, d)),
                    None => None,
                },
                None => None,
            },
        },
{
    if let Some(name) = opt_name {
        let def = t.classify(name)?;
        return Some((t.elements[name].range, def));
    }
    let name_ref = t.find_node_with_descend(SyntaxKind::NameRef, offset)?;
    let def = t.classify(name_ref)?;
    Some((t.elements[name_ref].range, def))
}

/// The access a declaration signals: a write where a local or field is
/// declared by `let mut` with an initializer, else none.
pub fn decl_access(def: &Definition, t: &SyntaxTree, range: TextRange) -> (r: Option<ReferenceAccess>)
    requires
        t.wf(),
    ensures
        r == declared_access(*def, t@, range),
{
    match def {
        Definition::Local(_) | Definition::Field(_) => {},
        _ => return None,
    }
    let stmt = t.find_node_in_tier(SyntaxKind::LetStmt, range.start, false)?;
    if t.has_expr_child_node(stmt) {
        let pat = t.first_pat_child_node(stmt)?;
        if t.elements[pat].kind == SyntaxKind::BindPat && t.has_child_token_of_kind(pat, SyntaxKind::MutKw) {
            return Some(ReferenceAccess::Write);
        }
    }
    None
}

/// Keeps the occurrences a search for `kind` asks for, in order.
fn filter_by_kind(refs: Vec<Reference>, kind: ReferenceKind) -> (r: Vec<Reference>)
    ensures
        r@ == of_kind(refs@, kind),
{
    let mut r: Vec<Reference> = Vec::new();
    let mut i: usize = 0;
    while i < refs.len()
        invariant
            i <= refs@.len(),
            r@ == of_kind(refs@.subrange(0, i as int), kind),
        decreases refs@.len() - i,
    {
        let x = refs[i];
        proof {
            reveal(Seq::filter);
            assert(refs@.subrange(0, i + 1).drop_last() == refs@.subrange(0, i as int));
        }
        if accepts_kind(kind, x.kind) {
            r.push(x);
        }
        i = i + 1;
    }
    assert(refs@.subrange(0, i as int) == refs@);
    r
}

/// All references to the definition under the cursor, within `search_scope`
/// or the whole workspace. None where the cursor is on no name, the name
/// does not resolve, or its definition has no navigation target.
pub fn find_all_refs(
    a: &Analysis,
    position: FilePosition,
    search_scope: Option<&SearchScope>,
) -> (r: Option<RangeInfo<ReferenceSearchResult>>)
    requires
        a.wf(),
    ensures
        is_search_answer(a, position, scope_view(search_scope), r),
{
    let fi = a.file_index(position.file_id)?;
    let t = &a.files[fi].tree;
    assert(t.wf());
    let (opt_name, search_kind) = match get_struct_def_name_for_struct_literal_search(t, position.offset) {
        Some(name) => (Some(name), ReferenceKind::StructLiteral),
        None => (t.find_node_with_descend(SyntaxKind::Name, position.offset), ReferenceKind::Other),
    };
    let (range, def) = find_name(t, position.offset, opt_name)?;
    let references = filter_by_kind(a.find_usages(def, search_scope), search_kind);
    let nav = a.try_to_nav(def)?;
    let decl_range = nav.range();
    let access = match a.file_index(nav.file_id()) {
        Some(di) => {
            assert(a.files@[di as int].tree.wf());
            decl_access(&def, &a.files[di].tree, decl_range)
        },
        None => None,
    };
    let declaration = Declaration { nav, kind: ReferenceKind::Other, access };
    let info = ReferenceSearchResult { declaration, references };
    proof {
        let tv = a.files@[fi as int].tree@;
        assert(resolve(tv, position.offset) == Some((range, def, search_kind)));
    }
    Some(RangeInfo { range, info })
}

/// `r` is what a query answers: none where `search_result` is none, else
/// the same span and result.
pub open spec fn is_search_answer(
    a: &Analysis,
    position: FilePosition,
    scope: Option<Seq<ScopeEntry>>,
    r: Option<RangeInfo<ReferenceSearchResult>>,
) -> bool {
    match r {
        Some(ri) => search_result(a, position, scope) == Some((ri.range, ri.info@)),
        None => search_result(a, position, scope).is_none(),
    }
}

/// Every successful query counts at least one occurrence: its declaration.
pub proof fn lemma_total_count_positive(a: &Analysis, position: FilePosition, scope: Option<Seq<ScopeEntry>>)
    ensures
        match search_result(a, position, scope) {
            Some((_, v)) => v.total_count() >= 1,
            None => true,
        },
{
}

/// The occurrences found in a scope of one whole file all lie in that file.
pub proof fn lemma_usages_in_single_file(us: Seq<Usage>, d: Definition, f: FileId)
    ensures
        forall|i: int|
            0 <= i < usages_of(us, d, Some(seq![ScopeEntry { file_id: f, range: None }])).len() ==> (
            #[trigger] usages_of(us, d, Some(seq![ScopeEntry { file_id: f, range: None }]))[i]).file_range.file_id
                == f,
    decreases us.len(),
{
    let sc = Some(seq![ScopeEntry { file_id: f, range: None }]);
    if us.len() > 0 {
        lemma_usages_in_single_file(us.drop_last(), d, f);
        let u = us.last();
        if u.def == d && in_scope(sc, u.reference.file_range) {
            let es = seq![ScopeEntry { file_id: f, range: None }];
            let i = choose|i: int| 0 <= i < es.len() && #[trigger] entry_covers(es[i], u.reference.file_range);
            assert(es[i] == es[0]);
        }
    }
}

/// Where every occurrence lies in file `f`, so does every one that a
/// filter by kind keeps.
pub proof fn lemma_filter_within_file(s: Seq<Reference>, k: ReferenceKind, f: FileId)
    requires
        forall|i: int| 0 <= i < s.len() ==> (#[trigger] s[i]).file_range.file_id == f,
    ensures
        forall|i: int| 0 <= i < of_kind(s, k).len() ==> (#[trigger] of_kind(s, k)[i]).file_range.file_id == f,
    decreases s.len(),
{
    reveal(Seq::filter);
    if s.len() > 0 {
        lemma_filter_within_file(s.drop_last(), k, f);
    }
}

/// A query scoped to one file reports only occurrences in that file; the
/// declaration may lie elsewhere.
pub proof fn lemma_single_file_scope(a: &Analysis, position: FilePosition, f: FileId)
    ensures
        match search_result(a, position, Some(seq![ScopeEntry { file_id: f, range: None }])) {
            Some((_, v)) => forall|i: int|
                0 <= i < v.references.len() ==> (#[trigger] v.references[i]).file_range.file_id == f,
            None => true,
        },
{
    let sc = Some(seq![ScopeEntry { file_id: f, range: None }]);
    if let Some(fi) = file_of(a.files@, position.file_id) {
        let t = a.files@[fi as int].tree@;
        if let Some((range, d, k)) = resolve(t, position.offset) {
            lemma_usages_in_single_file(a.usages@, d, f);
            lemma_filter_within_file(usages_of(a.usages@, d, sc), k, f);
        }
    }
}

/// A query from right before a struct's `{` or `(` reports construction
/// sites only: every occurrence of another kind is dropped.
pub proof fn lemma_struct_literal_query(a: &Analysis, position: FilePosition, scope: Option<Seq<ScopeEntry>>)
    ensures
        match file_of(a.files@, position.file_id) {
            Some(fi) => struct_literal_name(a.files@[fi as int].tree@, position.offset).is_some() ==> match search_result(a, position, scope) {
                Some((_, v)) => forall|i: int|
                    0 <= i < v.references.len() ==> (#[trigger] v.references[i]).kind == ReferenceKind::StructLiteral,
                None => true,
            },
            None => true,
        },
{
    if let Some(fi) = file_of(a.files@, position.file_id) {
        let t = a.files@[fi as int].tree@;
        if let Some((range, d, k)) = resolve(t, position.offset) {
            usages_of(a.usages@, d, scope).filter_lemma(|x: Reference| kind_accepted(k, x.kind));
        }
    }
}

/// Running the same query twice on one snapshot gives the same answer.
pub proof fn lemma_query_idempotent(
    a: &Analysis,
    position: FilePosition,
    scope: Option<Seq<ScopeEntry>>,
    first: Option<RangeInfo<ReferenceSearchResult>>,
    second: Option<RangeInfo<ReferenceSearchResult>>,
)
    requires
        is_search_answer(a, position, scope, first),
        is_search_answer(a, position, scope, second),
    ensures
        match (first, second) {
            (Some(x), Some(y)) => x.range == y.range && x.info@ == y.info@,
            (None, None) => true,
            _ => false,
        },
{
}

} // verus!
