//! The arena-stored lossless syntax tree that the swap engine reads.
//!
//! Every element lives in one flat arena. A structural node lists its
//! children as arena indices; a token is a leaf that carries its literal
//! source text. Parent references are plain back-indices, so the tree is
//! lookup-only and never owns anything twice. The tree is lossless: the
//! leaf texts, read in order, reproduce the source exactly, which the
//! well-formedness predicate states as a tiling of ranges.

use vstd::prelude::*;

use crate::text::TextRange;

verus! {

/// The kind tag shared by nodes and tokens. Only the distinctions the
/// engine acts on are kept; everything else is `OtherToken`/`OtherNode`.
#[derive(Clone, Copy, PartialEq, Eq, Structural, Debug)]
pub enum SyntaxKind {
    /// The designated list separator token (the `+` of a bound list).
    Separator,
    /// Whitespace trivia.
    Whitespace,
    /// Comment trivia.
    Comment,
    /// The inner-attribute marker token (the `!` right after `#`).
    Bang,
    /// Any other meaningful token.
    OtherToken,
    /// A recognized delimited-list construct (a trait-bound list).
    BoundList,
    /// An attribute node.
    Attribute,
    /// Any other structural node.
    OtherNode,
}

impl SyntaxKind {
    /// Whitespace and comments are trivia: kept in the tree, skipped when
    /// searching for meaningful siblings.
    pub open spec fn is_trivia(self) -> bool {
        self == SyntaxKind::Whitespace || self == SyntaxKind::Comment
    }
}

/// A node-or-token sum type; the children of a node mix both freely.
pub enum Element {
    Node { kind: SyntaxKind, parent: Option<usize>, children: Vec<usize>, range: TextRange },
    Token { kind: SyntaxKind, parent: Option<usize>, text: Vec<u8>, range: TextRange },
}

impl Element {
    pub open spec fn kind(self) -> SyntaxKind {
        match self {
            Element::Node { kind, .. } => kind,
            Element::Token { kind, .. } => kind,
        }
    }

    pub open spec fn range(self) -> TextRange {
        match self {
            Element::Node { range, .. } => range,
            Element::Token { range, .. } => range,
        }
    }

    pub open spec fn parent(self) -> Option<usize> {
        match self {
            Element::Node { parent, .. } => parent,
            Element::Token { parent, .. } => parent,
        }
    }

    pub open spec fn is_token(self) -> bool {
        self matches Element::Token { .. }
    }

    /// Only a token can be trivia; a node never is.
    pub open spec fn is_trivia(self) -> bool {
        self.is_token() && self.kind().is_trivia()
    }

    pub fn get_kind(&self) -> (k: SyntaxKind)
        ensures
            k == self.kind(),
    {
        match self {
            Element::Node { kind, .. } => *kind,
            Element::Token { kind, .. } => *kind,
        }
    }

    pub fn get_range(&self) -> (r: TextRange)
        ensures
            r == self.range(),
    {
        match self {
            Element::Node { range, .. } => *range,
            Element::Token { range, .. } => *range,
        }
    }

    pub fn get_parent(&self) -> (p: Option<usize>)
        ensures
            p == self.parent(),
    {
        match self {
            Element::Node { parent, .. } => *parent,
            Element::Token { parent, .. } => *parent,
        }
    }

    pub fn get_is_token(&self) -> (r: bool)
        ensures
            r == self.is_token(),
    {
        match self {
            Element::Node { .. } => false,
            Element::Token { .. } => true,
        }
    }

    pub fn get_is_trivia(&self) -> (r: bool)
        ensures
            r == self.is_trivia(),
    {
        match self {
            Element::Node { .. } => false,
            Element::Token { kind, .. } => {
                *kind == SyntaxKind::Whitespace || *kind == SyntaxKind::Comment
            },
        }
    }
}

/// The three candidate classes the token locator tries, in order: a
/// separator touching the offset wins; then a token properly containing
/// it; then any token touching it.
#[derive(Clone, Copy, PartialEq, Eq, Structural, Debug)]
pub enum CandidateClass {
    Separator,
    Strict,
    Boundary,
}

/// One parse's worth of immutable syntax: the source bytes and the arena.
pub struct SyntaxTree {
    pub source: Vec<u8>,
    pub elems: Vec<Element>,
}

impl SyntaxTree {
    pub open spec fn n_elems(self) -> int {
        self.elems@.len() as int
    }

    pub open spec fn valid(self, i: int) -> bool {
        0 <= i < self.n_elems()
    }

    pub open spec fn kind_of(self, i: int) -> SyntaxKind {
        self.elems@[i].kind()
    }

    pub open spec fn range_of(self, i: int) -> TextRange {
        self.elems@[i].range()
    }

    pub open spec fn parent_of(self, i: int) -> Option<usize> {
        self.elems@[i].parent()
    }

    /// The children of element `i`; a token has none.
    pub open spec fn children_of(self, i: int) -> Seq<usize> {
        match self.elems@[i] {
            Element::Node { children, .. } => children@,
            Element::Token { .. } => Seq::empty(),
        }
    }

    pub open spec fn is_trivia_at(self, i: int) -> bool {
        self.elems@[i].is_trivia()
    }

    /// The source text covered by element `i`. Because the tree is
    /// lossless (children tile their parent's range, tokens carry their
    /// exact slice), this is also the concatenation of its leaf texts.
    pub open spec fn elem_text(self, i: int) -> Seq<u8> {
        self.source@.subrange(self.range_of(i).start as int, self.range_of(i).end as int)
    }

    /// The element's range is a proper interval inside the source.
    pub open spec fn range_wf_at(self, i: int) -> bool {
        self.range_of(i).wf() && self.range_of(i).end <= self.source@.len()
    }

    /// A token carries exactly the source slice its range covers.
    pub open spec fn token_wf_at(self, i: int) -> bool {
        match self.elems@[i] {
            Element::Token { text, range, .. } => text@ == self.source@.subrange(
                range.start as int,
                range.end as int,
            ),
            Element::Node { .. } => true,
        }
    }

    /// Children are stored after their parent, in strictly increasing
    /// arena order, and each points back to it.
    pub open spec fn children_wf_at(self, i: int) -> bool {
        let ch = self.children_of(i);
        &&& forall|k: int| 0 <= k < ch.len() ==> i < #[trigger] ch[k] < self.n_elems()
        &&& forall|k: int|
            0 <= k < ch.len() ==> self.elems@[#[trigger] ch[k] as int].parent() == Some(
                i as usize,
            )
        &&& forall|k: int| 0 <= k < ch.len() - 1 ==> #[trigger] ch[k] < ch[k + 1]
    }

    /// Lossless tiling: a node's children cover its range exactly, each
    /// child starting where the previous one ended.
    pub open spec fn node_tiling_at(self, i: int) -> bool {
        self.elems@[i] matches Element::Node { .. } ==> {
            let ch = self.children_of(i);
            &&& (ch.len() == 0 ==> self.range_of(i).spec_len() == 0)
            &&& (ch.len() > 0 ==> self.range_of(ch[0] as int).start == self.range_of(i).start
                && self.range_of(ch[ch.len() - 1] as int).end == self.range_of(i).end)
            &&& forall|k: int|
                0 <= k < ch.len() - 1 ==> self.range_of(#[trigger] ch[k] as int).end
                    == self.range_of(ch[k + 1] as int).start
        }
    }

    /// A parent reference points backwards to a node that lists `i`.
    pub open spec fn parent_wf_at(self, i: int) -> bool {
        match self.parent_of(i) {
            Option::Some(p) => {
                &&& (p as int) < i
                &&& self.elems@[p as int] matches Element::Node { .. }
                &&& exists|k: int|
                    0 <= k < self.children_of(p as int).len() && #[trigger] self.children_of(
                        p as int,
                    )[k] as int == i
            },
            Option::None => true,
        }
    }

    pub open spec fn wf_at(self, i: int) -> bool {
        &&& self.range_wf_at(i)
        &&& self.token_wf_at(i)
        &&& self.children_wf_at(i)
        &&& self.node_tiling_at(i)
        &&& self.parent_wf_at(i)
    }

    /// Well-formedness of the whole tree.
    pub open spec fn wf(self) -> bool {
        forall|i: int| 0 <= i < self.n_elems() ==> #[trigger] self.wf_at(i)
    }

    pub fn n_elements(&self) -> (n: usize)
        ensures
            n == self.n_elems(),
    {
        self.elems.len()
    }

    /// The literal source text covered by element `i`.
    pub fn element_text(&self, i: usize) -> (r: Vec<u8>)
        requires
            self.wf(),
            self.valid(i as int),
        ensures
            r@ == self.elem_text(i as int),
    {
        proof {
            assert(self.wf_at(i as int));
        }
        let range = self.elems[i].get_range();
        let mut out: Vec<u8> = Vec::new();
        let mut j: usize = range.start;
        while j < range.end
            invariant
                range.start <= j <= range.end,
                range.end <= self.source@.len(),
                out@ == self.source@.subrange(range.start as int, j as int),
            decreases range.end - j,
        {
            out.push(self.source[j]);
            proof {
                assert(self.source@.subrange(range.start as int, j + 1 as int) =~= self.source@
                    .subrange(range.start as int, j as int).push(self.source@[j as int]));
            }
            j = j + 1;
        }
        out
    }

    /// Checks `wf_at(i)` for one element.
    #[verifier::loop_isolation(false)]
    fn check_elem(&self, i: usize) -> (r: bool)
        requires
            self.valid(i as int),
        ensures
            r == self.wf_at(i as int),
    {
        let e = &self.elems[i];
        let range = e.get_range();
        if !(range.start <= range.end && range.end <= self.source.len()) {
            return false;
        }
        // token: literal text must be the exact source slice
        match e {
            Element::Token { text, .. } => {
                if text.len() != range.end - range.start {
                    proof {
                        assert(self.source@.subrange(range.start as int, range.end as int).len()
                            == range.end - range.start);
                    }
                    return false;
                }
                let mut j: usize = 0;
                while j < text.len()
                    invariant
                        j <= text@.len(),
                        text@.len() == range.end - range.start,
                        range.end <= self.source@.len(),
                        range.start <= range.end,
                        i < self.elems@.len(),
                        self.elems@[i as int] matches Element::Token { text: t, .. } && t == text,
                        forall|m: int| 0 <= m < j ==> text@[m] == self.source@[range.start + m],
                    decreases text@.len() - j,
                {
                    if text[j] != self.source[range.start + j] {
                        proof {
                            assert(text@ != self.source@.subrange(
                                range.start as int,
                                range.end as int,
                            )) by {
                                assert(self.source@.subrange(
                                    range.start as int,
                                    range.end as int,
                                )[j as int] == self.source@[range.start + j]);
                            }
                        }
                        return false;
                    }
                    j = j + 1;
                }
                proof {
                    assert(text@ =~= self.source@.subrange(range.start as int, range.end as int));
                }
            },
            Element::Node { children, .. } => {
                // children: bounds, back-pointers, increasing order, tiling
                if children.len() == 0 {
                    if range.start != range.end {
                        return false;
                    }
                } else {
                    let mut k: usize = 0;
                    while k < children.len()
                        invariant
                            k <= children@.len(),
                            self.elems@[i as int] matches Element::Node { children: c, .. } && c
                                == children,
                            i < self.elems@.len(),
                            forall|m: int|
                                0 <= m < k ==> i < #[trigger] children@[m] < self.elems@.len(),
                            forall|m: int|
                                0 <= m < k ==> self.elems@[#[trigger] children@[m] as int].parent()
                                    == Some(i),
                            forall|m: int|
                                0 <= m < k && m + 1 < children@.len()
                                    ==> #[trigger] children@[m] < children@[m + 1],
                            forall|m: int|
                                0 <= m < k && m + 1 < children@.len() ==> self.range_of(
                                    #[trigger] children@[m] as int,
                                ).end == self.range_of(children@[m + 1] as int).start,
                        decreases children@.len() - k,
                    {
                        let c = children[k];
                        if !(i < c && c < self.elems.len()) {
                            return false;
                        }
                        match self.elems[c].get_parent() {
                            Some(p) => {
                                if p != i {
                                    return false;
                                }
                            },
                            None => {
                                return false;
                            },
                        }
                        if k + 1 < children.len() {
                            let cn = children[k + 1];
                            if !(c < cn) {
                                return false;
                            }
                            if !(cn < self.elems.len()) {
                                return false;
                            }
                            if self.elems[c].get_range().end != self.elems[cn].get_range().start {
                                return false;
                            }
                        }
                        k = k + 1;
                    }
                    let first = children[0];
                    let last = children[children.len() - 1];
                    if self.elems[first].get_range().start != range.start {
                        return false;
                    }
                    if self.elems[last].get_range().end != range.end {
                        return false;
                    }
                }
            },
        }
        // parent back-reference: must be an earlier node that lists `i`
        match self.elems[i].get_parent() {
            None => true,
            Some(p) => {
                if !(p < i) {
                    return false;
                }
                match &self.elems[p] {
                    Element::Token { .. } => false,
                    Element::Node { children, .. } => {
                        let mut k: usize = 0;
                        let n = children.len();
                        while k < n
                            invariant
                                k <= n,
                                n == children@.len(),
                                (p as int) < self.elems@.len(),
                                self.elems@[p as int] matches Element::Node { children: c, .. }
                                    && c == children,
                                forall|m: int| 0 <= m < k ==> #[trigger] children@[m] != i,
                            decreases n - k,
                        {
                            if children[k] == i {
                                proof {
                                    assert(self.children_of(p as int) == children@);
                                    assert(self.children_of(p as int)[k as int] as int == i);
                                }
                                return true;
                            }
                            k = k + 1;
                        }
                        false
                    },
                }
            },
        }
    }

    /// A separator token whose closed range touches the offset.
    pub open spec fn sep_candidate(self, i: int, offset: int) -> bool {
        &&& self.valid(i)
        &&& self.elems@[i].is_token()
        &&& self.kind_of(i) == SyntaxKind::Separator
        &&& self.range_of(i).touches(offset)
    }

    /// A token properly containing the offset (half-open).
    pub open spec fn strict_candidate(self, i: int, offset: int) -> bool {
        &&& self.valid(i)
        &&& self.elems@[i].is_token()
        &&& self.range_of(i).spec_contains(offset)
    }

    /// A token whose closed range touches the offset (boundary allowed).
    pub open spec fn boundary_candidate(self, i: int, offset: int) -> bool {
        &&& self.valid(i)
        &&& self.elems@[i].is_token()
        &&& self.range_of(i).touches(offset)
    }

    pub open spec fn candidate(self, c: CandidateClass, i: int, offset: int) -> bool {
        match c {
            CandidateClass::Separator => self.sep_candidate(i, offset),
            CandidateClass::Strict => self.strict_candidate(i, offset),
            CandidateClass::Boundary => self.boundary_candidate(i, offset),
        }
    }

    /// The least index at or after `i` that is a candidate of class `c`.
    pub open spec fn first_candidate_from(self, c: CandidateClass, offset: int, i: int) -> Option<
        int,
    >
        decreases self.n_elems() - i,
    {
        if i < 0 || i >= self.n_elems() {
            Option::None
        } else if self.candidate(c, i, offset) {
            Option::Some(i)
        } else {
            self.first_candidate_from(c, offset, i + 1)
        }
    }

    pub open spec fn first_candidate(self, c: CandidateClass, offset: int) -> Option<int> {
        self.first_candidate_from(c, offset, 0)
    }

    pub proof fn lemma_first_candidate_from(self, c: CandidateClass, offset: int, i: int)
        requires
            0 <= i,
        ensures
            match self.first_candidate_from(c, offset, i) {
                Option::Some(j) => i <= j < self.n_elems() && self.candidate(c, j, offset) && (
                forall|k: int| i <= k < j ==> !#[trigger] self.candidate(c, k, offset)),
                Option::None => forall|k: int|
                    i <= k < self.n_elems() ==> !#[trigger] self.candidate(c, k, offset),
            },
        decreases self.n_elems() - i,
    {
        if i < self.n_elems() && !self.candidate(c, i, offset) {
            self.lemma_first_candidate_from(c, offset, i + 1);
        }
    }

    /// The token the locator picks at `offset`. When the offset sits on a
    /// boundary between two tokens the policy is deterministic: a separator
    /// candidate wins; otherwise the token properly containing the offset
    /// (at a boundary, the one starting there); otherwise the earliest
    /// token merely touching it (at the end of the text, the one ending
    /// there).
    pub open spec fn token_at(self, offset: int) -> Option<int> {
        let sep = self.first_candidate(CandidateClass::Separator, offset);
        let strict = self.first_candidate(CandidateClass::Strict, offset);
        let bdry = self.first_candidate(CandidateClass::Boundary, offset);
        if sep matches Option::Some(_) {
            sep
        } else if strict matches Option::Some(_) {
            strict
        } else {
            bdry
        }
    }

    /// Whatever the policy picks is a token touching the offset.
    pub proof fn lemma_token_at_props(self, offset: int)
        ensures
            self.token_at(offset) matches Option::Some(j) ==> self.valid(j)
                && self.elems@[j].is_token() && self.range_of(j).touches(offset),
    {
        self.lemma_first_candidate_from(CandidateClass::Separator, offset, 0);
        self.lemma_first_candidate_from(CandidateClass::Strict, offset, 0);
        self.lemma_first_candidate_from(CandidateClass::Boundary, offset, 0);
    }

    fn is_sep_candidate(&self, i: usize, offset: usize) -> (r: bool)
        requires
            self.valid(i as int),
        ensures
            r == self.sep_candidate(i as int, offset as int),
    {
        let e = &self.elems[i];
        let rg = e.get_range();
        e.get_is_token() && e.get_kind() == SyntaxKind::Separator && rg.start <= offset && offset
            <= rg.end
    }

    fn is_strict_candidate(&self, i: usize, offset: usize) -> (r: bool)
        requires
            self.valid(i as int),
        ensures
            r == self.strict_candidate(i as int, offset as int),
    {
        let e = &self.elems[i];
        let rg = e.get_range();
        e.get_is_token() && rg.start <= offset && offset < rg.end
    }

    fn is_boundary_candidate(&self, i: usize, offset: usize) -> (r: bool)
        requires
            self.valid(i as int),
        ensures
            r == self.boundary_candidate(i as int, offset as int),
    {
        let e = &self.elems[i];
        let rg = e.get_range();
        e.get_is_token() && rg.start <= offset && offset <= rg.end
    }

    /// The least candidate of class `c` touching `offset`, by a left-to-
    /// right scan of the arena.
    #[verifier::loop_isolation(false)]
    fn first_candidate_scan(&self, c: CandidateClass, offset: usize) -> (r: Option<usize>)
        ensures
            self.first_candidate(c, offset as int) == match r {
                Option::Some(u) => Option::Some(u as int),
                Option::None => Option::None::<int>,
            },
    {
        let n = self.elems.len();
        let mut i: usize = 0;
        while i < n
            invariant
                i <= n,
                forall|m: int| 0 <= m < i ==> !#[trigger] self.candidate(c, m, offset as int),
            decreases n - i,
        {
            let hit = match c {
                CandidateClass::Separator => self.is_sep_candidate(i, offset),
                CandidateClass::Strict => self.is_strict_candidate(i, offset),
                CandidateClass::Boundary => self.is_boundary_candidate(i, offset),
            };
            if hit {
                proof {
                    assert(self.candidate(c, i as int, offset as int));
                    self.lemma_first_candidate_from(c, offset as int, 0);
                    assert(self.first_candidate_from(c, offset as int, 0) == Option::Some(
                        i as int,
                    ));
                }
                return Some(i);
            }
            i = i + 1;
        }
        proof {
            self.lemma_first_candidate_from(c, offset as int, 0);
        }
        None
    }

    /// Locates the token at a text offset, by the policy of `token_at`.
    pub fn find_token_at_offset(&self, offset: usize) -> (r: Option<usize>)
        ensures
            self.token_at(offset as int) == match r {
                Option::Some(u) => Option::Some(u as int),
                Option::None => Option::None::<int>,
            },
    {
        let sep = self.first_candidate_scan(CandidateClass::Separator, offset);
        if sep.is_some() {
            return sep;
        }
        let strict = self.first_candidate_scan(CandidateClass::Strict, offset);
        if strict.is_some() {
            return strict;
        }
        self.first_candidate_scan(CandidateClass::Boundary, offset)
    }

    /// Whether the token's immediate parent is a recognized delimited-list
    /// construct: the structural gate that must pass before any sibling
    /// search is attempted.
    pub open spec fn recognized_context(self, t: int) -> bool {
        match self.parent_of(t) {
            Option::Some(p) => self.kind_of(p as int) == SyntaxKind::BoundList,
            Option::None => false,
        }
    }

    pub fn is_recognized_context(&self, t: usize) -> (r: bool)
        requires
            self.wf(),
            self.valid(t as int),
        ensures
            r == self.recognized_context(t as int),
    {
        proof {
            assert(self.wf_at(t as int));
        }
        match self.elems[t].get_parent() {
            Some(p) => self.elems[p].get_kind() == SyntaxKind::BoundList,
            None => false,
        }
    }

    /// Checks the whole well-formedness invariant; tests and embedders can
    /// run this on a freshly built arena before asking for an edit.
    pub fn wf_check(&self) -> (r: bool)
        ensures
            r == self.wf(),
    {
        let mut i: usize = 0;
        let n = self.elems.len();
        while i < n
            invariant
                i <= n,
                n == self.n_elems(),
                forall|m: int| 0 <= m < i ==> #[trigger] self.wf_at(m),
            decreases n - i,
        {
            if !self.check_elem(i) {
                return false;
            }
            i = i + 1;
        }
        true
    }
}

} // verus!
