//! Walking flat siblings under one parent, skipping trivia.
//!
//! The search never ascends to the grandparent: reaching the edge of the
//! sibling list is a valid "nothing there" outcome, not an escalation.

use vstd::prelude::*;

use crate::tree::Element;
use crate::tree::SyntaxTree;

verus! {

/// The traversal direction when searching for a non-trivia sibling.
#[derive(Clone, Copy, PartialEq, Eq, Structural, Debug)]
pub enum Direction {
    Prev,
    Next,
}

impl SyntaxTree {
    /// The position of element `e` among the children of `p`. Unique in a
    /// well-formed tree, where children are strictly increasing.
    pub open spec fn position_in_parent(self, p: int, e: int) -> int {
        choose|k: int|
            0 <= k < self.children_of(p).len() && #[trigger] self.children_of(p)[k] as int == e
    }

    /// The first non-trivia element at or after position `k` of `ch`.
    pub open spec fn scan_next(self, ch: Seq<usize>, k: int) -> Option<usize>
        decreases ch.len() - k,
    {
        if k < 0 || k >= ch.len() {
            Option::None
        } else if !self.is_trivia_at(ch[k] as int) {
            Option::Some(ch[k])
        } else {
            self.scan_next(ch, k + 1)
        }
    }

    /// The first non-trivia element at or before position `k` of `ch`.
    pub open spec fn scan_prev(self, ch: Seq<usize>, k: int) -> Option<usize>
        decreases k + 1,
    {
        if k < 0 || k >= ch.len() {
            Option::None
        } else if !self.is_trivia_at(ch[k] as int) {
            Option::Some(ch[k])
        } else {
            self.scan_prev(ch, k - 1)
        }
    }

    /// The nearest non-trivia sibling of `e` in direction `dir`, confined
    /// to the immediate siblings under `e`'s own parent.
    pub open spec fn non_trivia_sibling_spec(self, e: int, dir: Direction) -> Option<usize> {
        match self.parent_of(e) {
            Option::None => Option::None,
            Option::Some(p) => {
                let ch = self.children_of(p as int);
                let k = self.position_in_parent(p as int, e);
                match dir {
                    Direction::Next => self.scan_next(ch, k + 1),
                    Direction::Prev => self.scan_prev(ch, k - 1),
                }
            },
        }
    }

    /// In a well-formed tree the children of a node are strictly
    /// increasing arena indices.
    pub proof fn lemma_children_increasing(self, p: int, k1: int, k2: int)
        requires
            self.wf(),
            self.valid(p),
            0 <= k1 < k2 < self.children_of(p).len(),
        ensures
            self.children_of(p)[k1] < self.children_of(p)[k2],
        decreases k2 - k1,
    {
        assert(self.wf_at(p));
        if k1 + 1 < k2 {
            self.lemma_children_increasing(p, k1, k2 - 1);
        }
    }

    /// Hence an element occurs at one position only, and `choose` picks it.
    pub proof fn lemma_position_unique(self, p: int, e: int, k: int)
        requires
            self.wf(),
            self.valid(p),
            0 <= k < self.children_of(p).len(),
            self.children_of(p)[k] as int == e,
        ensures
            self.position_in_parent(p, e) == k,
    {
        let kc = self.position_in_parent(p, e);
        assert(0 <= kc < self.children_of(p).len() && self.children_of(p)[kc] as int == e);
        if kc < k {
            self.lemma_children_increasing(p, kc, k);
        } else if k < kc {
            self.lemma_children_increasing(p, k, kc);
        }
    }

    /// In a well-formed tree, an earlier sibling's range ends no later
    /// than a later sibling's range starts.
    pub proof fn lemma_children_ranges_ordered(self, p: int, k1: int, k2: int)
        requires
            self.wf(),
            self.valid(p),
            0 <= k1 < k2 < self.children_of(p).len(),
        ensures
            self.range_of(self.children_of(p)[k1] as int).end <= self.range_of(
                self.children_of(p)[k2] as int,
            ).start,
        decreases k2 - k1,
    {
        let ch = self.children_of(p);
        assert(self.wf_at(p));
        assert(self.elems@[p] matches Element::Node { .. }) by {
            if self.elems@[p] matches Element::Token { .. } {
                assert(ch.len() == 0);
            }
        }
        if k1 + 1 == k2 {
            assert(self.range_of(ch[k1] as int).end == self.range_of(ch[k2] as int).start);
        } else {
            self.lemma_children_ranges_ordered(p, k1, k2 - 1);
            assert(self.range_of(ch[k2 - 1] as int).end == self.range_of(ch[k2] as int).start);
            assert(self.wf_at(ch[k2 - 1] as int));
        }
    }

    /// Where the forward scan lands: the first non-trivia position `m` at
    /// or after `k`, everything in between being trivia.
    pub proof fn lemma_scan_next(self, ch: Seq<usize>, k: int) -> (m: int)
        requires
            0 <= k,
        ensures
            match self.scan_next(ch, k) {
                Option::Some(j) => k <= m < ch.len() && ch[m] == j && !self.is_trivia_at(j as int)
                    && (forall|l: int| k <= l < m ==> self.is_trivia_at(#[trigger] ch[l] as int)),
                Option::None => forall|l: int|
                    k <= l < ch.len() ==> self.is_trivia_at(#[trigger] ch[l] as int),
            },
        decreases ch.len() - k,
    {
        if k < ch.len() && self.is_trivia_at(ch[k] as int) {
            self.lemma_scan_next(ch, k + 1)
        } else {
            k
        }
    }

    /// Where the backward scan lands, symmetrically.
    pub proof fn lemma_scan_prev(self, ch: Seq<usize>, k: int) -> (m: int)
        requires
            k < ch.len(),
        ensures
            match self.scan_prev(ch, k) {
                Option::Some(j) => 0 <= m <= k && ch[m] == j && !self.is_trivia_at(j as int) && (
                forall|l: int| m < l <= k ==> self.is_trivia_at(#[trigger] ch[l] as int)),
                Option::None => forall|l: int|
                    0 <= l <= k ==> self.is_trivia_at(#[trigger] ch[l] as int),
            },
        decreases k + 1,
    {
        if 0 <= k && self.is_trivia_at(ch[k] as int) {
            self.lemma_scan_prev(ch, k - 1)
        } else {
            k
        }
    }

    /// Edge-of-list law: whenever some sibling strictly beyond `e`'s
    /// position in the requested direction is non-trivia, the lookup
    /// succeeds; `None` happens only at the edge of the sibling list.
    pub proof fn lemma_sibling_found(self, e: int, dir: Direction)
        requires
            self.wf(),
            self.valid(e),
            self.parent_of(e) matches Option::Some(p) && (match dir {
                Direction::Next => exists|m: int|
                    self.position_in_parent(p as int, e) < m < self.children_of(p as int).len()
                        && !self.is_trivia_at(#[trigger] self.children_of(p as int)[m] as int),
                Direction::Prev => exists|m: int|
                    0 <= m < self.position_in_parent(p as int, e) && !self.is_trivia_at(
                        #[trigger] self.children_of(p as int)[m] as int,
                    ),
            }),
        ensures
            self.non_trivia_sibling_spec(e, dir) matches Option::Some(j) && self.valid(j as int)
                && !self.is_trivia_at(j as int),
    {
        let p = self.parent_of(e)->Some_0;
        let ch = self.children_of(p as int);
        let k = self.position_in_parent(p as int, e);
        assert(self.wf_at(e));
        assert(self.wf_at(p as int));
        match dir {
            Direction::Next => {
                let m = self.lemma_scan_next(ch, k + 1);
                match self.scan_next(ch, k + 1) {
                    Option::Some(j) => {
                        assert(self.valid(j as int));
                    },
                    Option::None => {
                        let w = choose|w: int|
                            k < w < ch.len() && !self.is_trivia_at(#[trigger] ch[w] as int);
                        assert(self.is_trivia_at(ch[w] as int));
                    },
                }
            },
            Direction::Prev => {
                if k - 1 < ch.len() {
                    let m = self.lemma_scan_prev(ch, k - 1);
                    match self.scan_prev(ch, k - 1) {
                        Option::Some(j) => {
                            assert(self.valid(j as int));
                        },
                        Option::None => {
                            let w = choose|w: int|
                                0 <= w < k && !self.is_trivia_at(#[trigger] ch[w] as int);
                            assert(self.is_trivia_at(ch[w] as int));
                        },
                    }
                }
            },
        }
    }

    /// Walks flat siblings of `e` under its parent in direction `dir`,
    /// skipping trivia, and returns the first meaningful element, or
    /// `None` at the edge of the sibling list.
    #[verifier::loop_isolation(false)]
    pub fn non_trivia_sibling(&self, e: usize, dir: Direction) -> (r: Option<usize>)
        requires
            self.wf(),
            self.valid(e as int),
        ensures
            r == self.non_trivia_sibling_spec(e as int, dir),
            r matches Option::Some(j) ==> self.valid(j as int) && !self.is_trivia_at(j as int),
    {
        proof {
            assert(self.wf_at(e as int));
        }
        let p = match self.elems[e].get_parent() {
            None => {
                return None;
            },
            Some(p) => p,
        };
        let children = match &self.elems[p] {
            Element::Token { .. } => {
                proof {
                    assert(false);
                }
                return None;
            },
            Element::Node { children, .. } => children,
        };
        let ghost ch = self.children_of(p as int);
        let n = children.len();
        // locate e among the children of p
        let mut k: usize = 0;
        let mut pos: usize = 0;
        let mut found = false;
        while k < n
            invariant
                k <= n,
                !found ==> forall|m: int| 0 <= m < k ==> #[trigger] ch[m] != e,
                found ==> pos < n && ch[pos as int] == e,
            decreases n - k,
        {
            if children[k] == e {
                pos = k;
                found = true;
                proof {
                    self.lemma_position_unique(p as int, e as int, k as int);
                }
                break ;
            }
            k = k + 1;
        }
        if !found {
            proof {
                assert(false);
            }
            return None;
        }
        proof {
            self.lemma_position_unique(p as int, e as int, pos as int);
        }
        match dir {
            Direction::Next => {
                let mut idx: usize = pos + 1;
                while idx < n
                    invariant
                        pos < idx <= n,
                        self.scan_next(ch, pos + 1) == self.scan_next(ch, idx as int),
                    decreases n - idx,
                {
                    let c = children[idx];
                    proof {
                        assert(self.wf_at(p as int));
                    }
                    if !self.elems[c].get_is_trivia() {
                        return Some(c);
                    }
                    idx = idx + 1;
                }
                None
            },
            Direction::Prev => {
                let mut idx: usize = pos;
                while idx > 0
                    invariant
                        idx <= pos,
                        self.scan_prev(ch, pos - 1) == self.scan_prev(ch, idx - 1),
                    decreases idx,
                {
                    let c = children[idx - 1];
                    proof {
                        assert(self.wf_at(p as int));
                    }
                    if !self.elems[c].get_is_trivia() {
                        return Some(c);
                    }
                    idx = idx - 1;
                }
                None
            },
        }
    }
}

} // verus!
