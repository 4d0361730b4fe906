//! An immutable syntax tree held in an arena: elements refer to their parent
//! by index, and a parent always stands before its children.
use vstd::prelude::*;
use crate::defs::Definition;
use crate::text::TextRange;

verus! {

/// The kinds of nodes and tokens that the reference search looks at.
#[derive(Clone, Copy, Debug, PartialEq, Eq, Structural)]
pub enum SyntaxKind {
    SourceFile,
    StructDef,
    RecordFieldDef,
    FnDef,
    EnumDef,
    EnumVariant,
    Module,
    MacroCall,
    UseItem,
    Name,
    NameRef,
    TypeParamList,
    TypeParam,
    LetStmt,
    BindPat,
    TuplePat,
    PlaceholderPat,
    Literal,
    PathExpr,
    BinExpr,
    CallExpr,
    RecordLit,
    FieldExpr,
    BlockExpr,
    OtherNode,
    Ident,
    MutKw,
    LetKw,
    Eq,
    Semi,
    LCurly,
    RCurly,
    LParen,
    RParen,
    LAngle,
    RAngle,
    Whitespace,
    OtherToken,
}

/// Expression kinds: what may stand as the initializer of a `let`.
pub open spec fn is_expr_kind(k: SyntaxKind) -> bool {
    match k {
        SyntaxKind::Literal | SyntaxKind::PathExpr | SyntaxKind::BinExpr | SyntaxKind::CallExpr
        | SyntaxKind::RecordLit | SyntaxKind::FieldExpr | SyntaxKind::BlockExpr => true,
        _ => false,
    }
}

/// Pattern kinds: what may stand as the pattern of a `let`.
pub open spec fn is_pat_kind(k: SyntaxKind) -> bool {
    match k {
        SyntaxKind::BindPat | SyntaxKind::TuplePat | SyntaxKind::PlaceholderPat => true,
        _ => false,
    }
}

pub fn is_expr(k: SyntaxKind) -> (r: bool)
    ensures
        r == is_expr_kind(k),
{
    match k {
        SyntaxKind::Literal | SyntaxKind::PathExpr | SyntaxKind::BinExpr | SyntaxKind::CallExpr
        | SyntaxKind::RecordLit | SyntaxKind::FieldExpr | SyntaxKind::BlockExpr => true,
        _ => false,
    }
}

pub fn is_pat(k: SyntaxKind) -> (r: bool)
    ensures
        r == is_pat_kind(k),
{
    match k {
        SyntaxKind::BindPat | SyntaxKind::TuplePat | SyntaxKind::PlaceholderPat => true,
        _ => false,
    }
}

/// One node or token of a file's tree.
///
/// `expanded` marks elements of a tree generated by expansion, whose ranges
/// overlay the source positions they were produced from.
/// `resolves_to` is the semantic database's classification of a name or
/// name-reference element, `None` where it cannot resolve it.
#[derive(Clone, Copy, Debug, PartialEq, Eq, Structural)]
pub struct Element {
    pub kind: SyntaxKind,
    pub range: TextRange,
    pub parent: Option<usize>,
    pub is_token: bool,
    pub expanded: bool,
    pub resolves_to: Option<Definition>,
}

/// The syntax of one file, source and expanded elements in one arena.
#[derive(Debug)]
pub struct SyntaxTree {
    pub elements: Vec<Element>,
}

impl SyntaxTree {
    pub open spec fn view(&self) -> Seq<Element> {
        self.elements@
    }

    /// Every parent link points to an earlier element, and every range is
    /// well formed.
    pub open spec fn wf(&self) -> bool {
        forall|i: int|
            0 <= i < self@.len() ==> {
                &&& (#[trigger] self@[i]).range.wf()
                &&& match self@[i].parent {
                    Some(p) => p < i,
                    None => true,
                }
            }
    }
}

/// Element `i` is a node (not a token) of kind `k`, in the expanded tier when
/// `expanded` holds and in the source tree otherwise, touching `offset`.
pub open spec fn is_node_at(
    t: Seq<Element>,
    i: int,
    k: SyntaxKind,
    offset: u32,
    expanded: bool,
) -> bool {
    &&& 0 <= i < t.len()
    &&& t[i].kind == k
    &&& !t[i].is_token
    &&& t[i].expanded == expanded
    &&& t[i].range.touches(offset)
}

/// Element `i` is the innermost such node: no other is shorter, and of those
/// as short, none comes earlier.
pub open spec fn is_innermost_at(
    t: Seq<Element>,
    i: int,
    k: SyntaxKind,
    offset: u32,
    expanded: bool,
) -> bool {
    &&& is_node_at(t, i, k, offset, expanded)
    &&& forall|j: int|
        #[trigger] is_node_at(t, j, k, offset, expanded) ==> t[i].range.spec_len() < t[j].range.spec_len()
            || (t[i].range.spec_len() == t[j].range.spec_len() && i <= j)
}

/// The innermost node of kind `k` touching `offset` in one tier, if any.
pub open spec fn node_at(t: Seq<Element>, k: SyntaxKind, offset: u32, expanded: bool) -> Option<usize> {
    if exists|i: int| #[trigger] is_innermost_at(t, i, k, offset, expanded) {
        Some(choose|i: usize| #[trigger] is_innermost_at(t, i as int, k, offset, expanded))
    } else {
        None
    }
}

/// The lookup that descends into expansions: the innermost node of the
/// expanded tier where one touches the offset, else that of the source tree.
pub open spec fn node_at_descend(t: Seq<Element>, k: SyntaxKind, offset: u32) -> Option<usize> {
    match node_at(t, k, offset, true) {
        Some(i) => Some(i),
        None => node_at(t, k, offset, false),
    }
}

/// The nearest element of kind `k` among `i` and its ancestors.
pub open spec fn nearest_ancestor(t: Seq<Element>, i: int, k: SyntaxKind) -> Option<usize>
    decreases i,
{
    if i < 0 || i >= t.len() {
        None
    } else if t[i].kind == k {
        Some(i as usize)
    } else {
        match t[i].parent {
            Some(p) => if p < i {
                nearest_ancestor(t, p as int, k)
            } else {
                None
            },
            None => None,
        }
    }
}

/// Element `c` is a child of `p` of kind `k`.
pub open spec fn is_child_of_kind(t: Seq<Element>, p: int, c: int, k: SyntaxKind) -> bool {
    &&& 0 <= c < t.len()
    &&& t[c].parent == Some(p as usize)
    &&& t[c].kind == k
}

/// Element `c` is the first child of `p` of kind `k`.
pub open spec fn is_first_child(t: Seq<Element>, p: int, c: int, k: SyntaxKind) -> bool {
    &&& is_child_of_kind(t, p, c, k)
    &&& forall|j: int| #![trigger is_child_of_kind(t, p, j, k)] is_child_of_kind(t, p, j, k) ==> c <= j
}

/// The first child of `p` of kind `k`, if any.
pub open spec fn first_child(t: Seq<Element>, p: int, k: SyntaxKind) -> Option<usize> {
    if exists|c: int| #[trigger] is_first_child(t, p, c, k) {
        Some(choose|c: usize| #[trigger] is_first_child(t, p, c as int, k))
    } else {
        None
    }
}

/// Element `i` is a token of the source tree that ends at `offset` and is
/// not empty.
pub open spec fn is_left_token(t: Seq<Element>, i: int, offset: u32) -> bool {
    &&& 0 <= i < t.len()
    &&& t[i].is_token
    &&& !t[i].expanded
    &&& t[i].range.end == offset
    &&& t[i].range.start < offset
}

/// Element `i` is a token of the source tree that starts at `offset` and is
/// not empty.
pub open spec fn is_right_token(t: Seq<Element>, i: int, offset: u32) -> bool {
    &&& 0 <= i < t.len()
    &&& t[i].is_token
    &&& !t[i].expanded
    &&& t[i].range.start == offset
    &&& offset < t[i].range.end
}

/// Element `i` is the first token ending at `offset`.
pub open spec fn is_first_left(t: Seq<Element>, i: int, offset: u32) -> bool {
    is_left_token(t, i, offset) && forall|j: int| #[trigger] is_left_token(t, j, offset) ==> i <= j
}

/// Element `i` is the first token starting at `offset`.
pub open spec fn is_first_right(t: Seq<Element>, i: int, offset: u32) -> bool {
    is_right_token(t, i, offset) && forall|j: int| #[trigger] is_right_token(t, j, offset) ==> i <= j
}

/// The tokens of the source tree straddling `offset`, where the offset
/// falls between two of them.
pub open spec fn tokens_around(t: Seq<Element>, offset: u32) -> Option<(usize, usize)> {
    if (exists|l: int| #[trigger] is_left_token(t, l, offset)) && (exists|r: int|
        #[trigger] is_right_token(t, r, offset)) {
        Some(
            (
                choose|l: usize| #[trigger] is_first_left(t, l as int, offset),
                choose|r: usize| #[trigger] is_first_right(t, r as int, offset),
            ),
        )
    } else {
        None
    }
}

/// Some child of `p` is a node of an expression kind.
pub open spec fn has_expr_child(t: Seq<Element>, p: int) -> bool {
    exists|c: int|
        0 <= c < t.len() && t[c].parent == Some(p as usize) && !t[c].is_token && #[trigger] is_expr_kind(t[c].kind)
}

/// Element `c` is a child node of `p` of a pattern kind.
pub open spec fn is_pat_child(t: Seq<Element>, p: int, c: int) -> bool {
    &&& 0 <= c < t.len()
    &&& t[c].parent == Some(p as usize)
    &&& !t[c].is_token
    &&& is_pat_kind(t[c].kind)
}

/// Element `c` is the first child node of `p` of a pattern kind.
pub open spec fn is_first_pat_child(t: Seq<Element>, p: int, c: int) -> bool {
    is_pat_child(t, p, c) && forall|j: int| #[trigger] is_pat_child(t, p, j) ==> c <= j
}

/// The first child node of `p` of a pattern kind.
pub open spec fn first_pat_child(t: Seq<Element>, p: int) -> Option<usize> {
    if exists|c: int| #[trigger] is_first_pat_child(t, p, c) {
        Some(choose|c: usize| #[trigger] is_first_pat_child(t, p, c as int))
    } else {
        None
    }
}

/// Some child of `p` is a token of kind `k`.
pub open spec fn has_child_token(t: Seq<Element>, p: int, k: SyntaxKind) -> bool {
    exists|c: int| 0 <= c < t.len() && #[trigger] t[c].parent == Some(p as usize) && t[c].is_token && t[c].kind == k
}

impl SyntaxTree {
    /// The definition the semantic database resolves element `i` to; none
    /// where the name does not resolve.
    pub fn classify(&self, i: usize) -> (r: Option<Definition>)
        requires
            i < self@.len(),
        ensures
            r == self@[i as int].resolves_to,
    {
        self.elements[i].resolves_to
    }

    /// The innermost node of kind `k` touching `offset` in one tier.
    pub fn find_node_in_tier(&self, k: SyntaxKind, offset: u32, expanded: bool) -> (r: Option<usize>)
        requires
            self.wf(),
        ensures
            r == node_at(self@, k, offset, expanded),
    {
        let mut best: Option<usize> = None;
        let mut i: usize = 0;
        while i < self.elements.len()
            invariant
                self.wf(),
                i <= self@.len(),
                match best {
                    Some(b) => b < i && is_node_at(self@, b as int, k, offset, expanded) && forall|j: int|
                        0 <= j < i && #[trigger] is_node_at(self@, j, k, offset, expanded)
                            ==> self@[b as int].range.spec_len() < self@[j].range.spec_len()
                            || (self@[b as int].range.spec_len() == self@[j].range.spec_len() && b <= j),
                    None => forall|j: int| 0 <= j < i ==> !#[trigger] is_node_at(self@, j, k, offset, expanded),
                },
            decreases self@.len() - i,
        {
            let e = self.elements[i];
            if e.kind == k && !e.is_token && e.expanded == expanded && e.range.contains_offset(offset) {
                match best {
                    None => {
                        best = Some(i);
                    },
                    Some(b) => {
                        if e.range.len() < self.elements[b].range.len() {
                            best = Some(i);
                        }
                    },
                }
            }
            i = i + 1;
        }
        proof {
            if let Some(b) = best {
                assert(is_innermost_at(self@, b as int, k, offset, expanded));
                let c = choose|c: usize| #[trigger] is_innermost_at(self@, c as int, k, offset, expanded);
                assert(is_node_at(self@, c as int, k, offset, expanded));
                assert(c == b);
            } else {
                assert forall|i: int| !#[trigger] is_innermost_at(self@, i, k, offset, expanded) by {
                    if is_innermost_at(self@, i, k, offset, expanded) {
                        assert(is_node_at(self@, i, k, offset, expanded));
                    }
                }
            }
        }
        best
    }

    /// The innermost node of kind `k` touching `offset`, looked up first in
    /// the expanded tier and then in the source tree.
    pub fn find_node_with_descend(&self, k: SyntaxKind, offset: u32) -> (r: Option<usize>)
        requires
            self.wf(),
        ensures
            r == node_at_descend(self@, k, offset),
    {
        let inner = self.find_node_in_tier(k, offset, true);
        match inner {
            Some(i) => Some(i),
            None => self.find_node_in_tier(k, offset, false),
        }
    }

    /// The nearest element of kind `k` among `i` and its ancestors.
    pub fn ancestor_of_kind(&self, i: usize, k: SyntaxKind) -> (r: Option<usize>)
        requires
            self.wf(),
            i < self@.len(),
        ensures
            r == nearest_ancestor(self@, i as int, k),
        decreases i,
    {
        let e = self.elements[i];
        if e.kind == k {
            Some(i)
        } else {
            match e.parent {
                Some(p) => self.ancestor_of_kind(p, k),
                None => None,
            }
        }
    }

    /// The first child of `p` of kind `k`.
    pub fn first_child_of_kind(&self, p: usize, k: SyntaxKind) -> (r: Option<usize>)
        ensures
            r == first_child(self@, p as int, k),
    {
        let mut i: usize = 0;
        while i < self.elements.len()
            invariant
                i <= self@.len(),
                forall|j: int| 0 <= j < i ==> !#[trigger] is_child_of_kind(self@, p as int, j, k),
            decreases self@.len() - i,
        {
            let e = self.elements[i];
            if e.parent == Some(p) && e.kind == k {
                proof {
                    assert(is_first_child(self@, p as int, i as int, k));
                    let c = choose|c: usize| #[trigger] is_first_child(self@, p as int, c as int, k);
                    assert(is_child_of_kind(self@, p as int, c as int, k));
                    assert(is_child_of_kind(self@, p as int, i as int, k));
                }
                return Some(i);
            }
            i = i + 1;
        }
        proof {
            assert forall|c: int| !#[trigger] is_first_child(self@, p as int, c, k) by {
                if is_first_child(self@, p as int, c, k) {
                    assert(is_child_of_kind(self@, p as int, c, k));
                }
            }
        }
        None
    }

    /// The tokens of the source tree on either side of `offset`.
    pub fn tokens_between(&self, offset: u32) -> (r: Option<(usize, usize)>)
        ensures
            r == tokens_around(self@, offset),
            match r {
                Some((l, rt)) => is_left_token(self@, l as int, offset) && is_right_token(self@, rt as int, offset),
                None => true,
            },
    {
        let mut left: Option<usize> = None;
        let mut right: Option<usize> = None;
        let mut i: usize = 0;
        while i < self.elements.len()
            invariant
                i <= self@.len(),
                match left {
                    Some(l) => l < i && is_left_token(self@, l as int, offset) && forall|j: int|
                        0 <= j < i && #[trigger] is_left_token(self@, j, offset) ==> l <= j,
                    None => forall|j: int| 0 <= j < i ==> !#[trigger] is_left_token(self@, j, offset),
                },
                match right {
                    Some(rt) => rt < i && is_right_token(self@, rt as int, offset) && forall|j: int|
                        0 <= j < i && #[trigger] is_right_token(self@, j, offset) ==> rt <= j,
                    None => forall|j: int| 0 <= j < i ==> !#[trigger] is_right_token(self@, j, offset),
                },
            decreases self@.len() - i,
        {
            let e = self.elements[i];
            if e.is_token && !e.expanded {
                if left.is_none() && e.range.end == offset && e.range.start < offset {
                    left = Some(i);
                }
                if right.is_none() && e.range.start == offset && offset < e.range.end {
                    right = Some(i);
                }
            }
            i = i + 1;
        }
        match (left, right) {
            (Some(l), Some(rt)) => {
                proof {
                    assert(is_first_left(self@, l as int, offset));
                    assert(is_first_right(self@, rt as int, offset));
                    let cl = choose|c: usize| #[trigger] is_first_left(self@, c as int, offset);
                    let cr = choose|c: usize| #[trigger] is_first_right(self@, c as int, offset);
                    assert(is_left_token(self@, cl as int, offset));
                    assert(is_right_token(self@, cr as int, offset));
                }
                Some((l, rt))
            },
            _ => None,
        }
    }
    /// Whether some child of `p` is an expression node.
    pub fn has_expr_child_node(&self, p: usize) -> (r: bool)
        ensures
            r == has_expr_child(self@, p as int),
    {
        let mut i: usize = 0;
        while i < self.elements.len()
            invariant
                i <= self@.len(),
                forall|j: int|
                    0 <= j < i ==> !(self@[j].parent == Some(p) && !self@[j].is_token && #[trigger] is_expr_kind(self@[j].kind)),
            decreases self@.len() - i,
        {
            let e = self.elements[i];
            if e.parent == Some(p) && !e.is_token && is_expr(e.kind) {
                return true;
            }
            i = i + 1;
        }
        false
    }

    /// The first child of `p` that is a pattern node.
    pub fn first_pat_child_node(&self, p: usize) -> (r: Option<usize>)
        ensures
            r == first_pat_child(self@, p as int),
    {
        let mut i: usize = 0;
        while i < self.elements.len()
            invariant
                i <= self@.len(),
                forall|j: int| 0 <= j < i ==> !#[trigger] is_pat_child(self@, p as int, j),
            decreases self@.len() - i,
        {
            let e = self.elements[i];
            if e.parent == Some(p) && !e.is_token && is_pat(e.kind) {
                proof {
                    assert(is_first_pat_child(self@, p as int, i as int));
                    let c = choose|c: usize| #[trigger] is_first_pat_child(self@, p as int, c as int);
                    assert(is_pat_child(self@, p as int, c as int));
                    assert(is_pat_child(self@, p as int, i as int));
                }
                return Some(i);
            }
            i = i + 1;
        }
        proof {
            assert forall|c: int| !#[trigger] is_first_pat_child(self@, p as int, c) by {
                if is_first_pat_child(self@, p as int, c) {
                    assert(is_pat_child(self@, p as int, c));
                }
            }
        }
        None
    }

    /// Whether some child of `p` is a token of kind `k`.
    pub fn has_child_token_of_kind(&self, p: usize, k: SyntaxKind) -> (r: bool)
        ensures
            r == has_child_token(self@, p as int, k),
    {
        let mut i: usize = 0;
        while i < self.elements.len()
            invariant
                i <= self@.len(),
                forall|j: int|
                    0 <= j < i ==> !(#[trigger] self@[j].parent == Some(p) && self@[j].is_token && self@[j].kind == k),
            decreases self@.len() - i,
        {
            let e = self.elements[i];
            if e.parent == Some(p) && e.is_token && e.kind == k {
                return true;
            }
            i = i + 1;
        }
        false
    }
}

} // verus!
