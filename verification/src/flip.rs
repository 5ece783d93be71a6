//! The swap assist: locate the separator under the cursor, validate its
//! structural context, find both non-trivia neighbors, and describe the
//! minimal text edit that swaps them in place.

use vstd::prelude::*;

use crate::edit::Edit;
use crate::edit::Replacement;
use crate::sibling::Direction;
use crate::tree::SyntaxKind;
use crate::tree::SyntaxTree;

verus! {

/// The text after the contents of `[ls, le)` and `[rs, re)` trade places;
/// everything else, the separator between them included, stays where it
/// was, byte for byte.
pub open spec fn swap_text(s: Seq<u8>, ls: int, le: int, rs: int, re: int) -> Seq<u8> {
    s.subrange(0, ls) + s.subrange(rs, re) + s.subrange(le, rs) + s.subrange(ls, le) + s.subrange(
        re,
        s.len() as int,
    )
}

/// Locality law: the swap touches exactly the two ranges. The overall
/// length is preserved up to the length difference of the two pieces,
/// the prefix and suffix stay in place, and the text strictly between
/// the ranges (the separator and its trivia) reappears shifted as one
/// block, byte-identical.
pub proof fn lemma_swap_locality(s: Seq<u8>, ls: int, le: int, rs: int, re: int)
    requires
        0 <= ls <= le <= rs <= re <= s.len(),
    ensures
        swap_text(s, ls, le, rs, re).len() == s.len(),
        forall|i: int| 0 <= i < ls ==> swap_text(s, ls, le, rs, re)[i] == s[i],
        forall|i: int| re <= i < s.len() ==> swap_text(s, ls, le, rs, re)[i] == s[i],
        forall|i: int|
            le <= i < rs ==> swap_text(s, ls, le, rs, re)[i + (re - rs) - (le - ls)] == s[i],
        forall|i: int| rs <= i < re ==> swap_text(s, ls, le, rs, re)[ls + (i - rs)] == s[i],
        forall|i: int|
            ls <= i < le ==> swap_text(s, ls, le, rs, re)[(re - (le - ls)) + (i - ls)] == s[i],
{
}

/// Round-trip law: swapping the same two elements back, at the ranges
/// they occupy in the edited text, restores the original text exactly.
pub proof fn lemma_swap_round_trip(s: Seq<u8>, ls: int, le: int, rs: int, re: int)
    requires
        0 <= ls <= le <= rs <= re <= s.len(),
    ensures
        ({
            let s2 = swap_text(s, ls, le, rs, re);
            let d = (re - rs) - (le - ls);
            swap_text(s2, ls, ls + (re - rs), rs + d, re) == s
        }),
{
    let s2 = swap_text(s, ls, le, rs, re);
    let d = (re - rs) - (le - ls);
    assert(s2.len() == s.len());
    assert(s2.subrange(0, ls) =~= s.subrange(0, ls));
    assert(s2.subrange(ls, ls + (re - rs)) =~= s.subrange(rs, re));
    assert(s2.subrange(ls + (re - rs), rs + d) =~= s.subrange(le, rs));
    assert(s2.subrange(rs + d, re) =~= s.subrange(ls, le));
    assert(s2.subrange(re, s2.len() as int) =~= s.subrange(re, s.len() as int));
    assert(swap_text(s2, ls, ls + (re - rs), rs + d, re) =~= s);
}

/// The exact shape of a swap edit for separator `t` with neighbors `l`
/// and `r`: two replacements trading the neighbors' source text, the
/// target anchored on the separator, which both replacements avoid.
pub open spec fn is_swap_edit(tree: SyntaxTree, e: Edit, t: int, l: int, r: int) -> bool {
    &&& e.replacements@.len() == 2
    &&& e.replacements@[0].range == tree.range_of(l)
    &&& e.replacements@[0].insert@ == tree.elem_text(r)
    &&& e.replacements@[1].range == tree.range_of(r)
    &&& e.replacements@[1].insert@ == tree.elem_text(l)
    &&& e.target == Option::Some(tree.range_of(t))
    &&& tree.range_of(l).before(tree.range_of(t))
    &&& tree.range_of(t).before(tree.range_of(r))
}

/// The two non-trivia neighbors of an element lie strictly to its left
/// and right in the text: tree structure alone keeps the three ranges
/// pairwise disjoint, so no after-the-fact overlap check is needed.
pub proof fn lemma_neighbors_ordered(tree: SyntaxTree, t: int, l: usize, r: usize)
    requires
        tree.wf(),
        tree.valid(t),
        tree.non_trivia_sibling_spec(t, Direction::Prev) == Option::Some(l),
        tree.non_trivia_sibling_spec(t, Direction::Next) == Option::Some(r),
    ensures
        tree.valid(l as int),
        tree.valid(r as int),
        tree.range_of(l as int).wf(),
        tree.range_of(r as int).wf(),
        tree.range_of(t).wf(),
        tree.range_of(r as int).end <= tree.source@.len(),
        tree.range_of(l as int).before(tree.range_of(t)),
        tree.range_of(t).before(tree.range_of(r as int)),
{
    assert(tree.wf_at(t));
    let p = tree.parent_of(t)->Some_0;
    let ch = tree.children_of(p as int);
    let k = tree.position_in_parent(p as int, t);
    assert(tree.wf_at(p as int));
    assert(0 <= k < ch.len() && ch[k] as int == t) by {
        assert(exists|m: int|
            0 <= m < ch.len() && #[trigger] tree.children_of(p as int)[m] as int == t);
    }
    let ml = tree.lemma_scan_prev(ch, k - 1);
    let mr = tree.lemma_scan_next(ch, k + 1);
    assert(ch[ml] == l && 0 <= ml < k);
    assert(ch[mr] == r && k < mr < ch.len());
    tree.lemma_children_ranges_ordered(p as int, ml, k);
    tree.lemma_children_ranges_ordered(p as int, k, mr);
    assert(tree.wf_at(l as int));
    assert(tree.wf_at(r as int));
}

/// Builds the swap edit for a separator and its two non-trivia neighbors:
/// exactly two replacements that trade the neighbors' source text, both
/// disjoint from the untouched separator, the cursor target anchored on
/// the separator's range. Applying it yields `swap_text` of the source.
pub fn build_swap(tree: &SyntaxTree, sep: usize, left: usize, right: usize) -> (e: Edit)
    requires
        tree.wf(),
        tree.valid(sep as int),
        tree.non_trivia_sibling_spec(sep as int, Direction::Prev) == Option::Some(left),
        tree.non_trivia_sibling_spec(sep as int, Direction::Next) == Option::Some(right),
    ensures
        is_swap_edit(*tree, e, sep as int, left as int, right as int),
        e.wf_for(tree.source@.len() as int),
        e.apply_spec(tree.source@) == swap_text(
            tree.source@,
            tree.range_of(left as int).start as int,
            tree.range_of(left as int).end as int,
            tree.range_of(right as int).start as int,
            tree.range_of(right as int).end as int,
        ),
{
    proof {
        lemma_neighbors_ordered(*tree, sep as int, left, right);
    }
    let lrange = tree.elems[left].get_range();
    let rrange = tree.elems[right].get_range();
    let srange = tree.elems[sep].get_range();
    let ltext = tree.element_text(left);
    let rtext = tree.element_text(right);
    let mut reps: Vec<Replacement> = Vec::new();
    reps.push(Replacement { range: lrange, insert: rtext });
    reps.push(Replacement { range: rrange, insert: ltext });
    let e = Edit { replacements: reps, target: Some(srange) };
    proof {
        let s = tree.source@;
        let r2 = e.replacements@;
        assert(r2.skip(1)[0] == r2[1]);
        assert(r2.skip(1).skip(1) =~= Seq::<Replacement>::empty());
        assert(Edit::apply_from(s, r2.skip(1).skip(1), rrange.end as int) =~= s.subrange(
            rrange.end as int,
            s.len() as int,
        ));
        assert(Edit::apply_from(s, r2.skip(1), lrange.end as int) =~= s.subrange(
            lrange.end as int,
            rrange.start as int,
        ) + r2[1].insert@ + s.subrange(rrange.end as int, s.len() as int));
        assert(e.apply_spec(s) =~= swap_text(
            s,
            lrange.start as int,
            lrange.end as int,
            rrange.start as int,
            rrange.end as int,
        ));
    }
    e
}

/// Whether the swap assist applies at `offset`: a separator token is
/// there, its immediate parent is a recognized list construct, and both
/// non-trivia neighbors exist.
pub open spec fn flip_applicable(tree: SyntaxTree, offset: int) -> bool {
    match tree.token_at(offset) {
        Option::None => false,
        Option::Some(t) => {
            &&& tree.kind_of(t) == SyntaxKind::Separator
            &&& tree.recognized_context(t)
            &&& tree.non_trivia_sibling_spec(t, Direction::Prev) matches Option::Some(_)
            &&& tree.non_trivia_sibling_spec(t, Direction::Next) matches Option::Some(_)
        },
    }
}

/// The swap assist. Produces the swap edit exactly when it is applicable
/// at `offset`, and never a partial edit: every precondition miss is an
/// ordinary `None`.
pub fn flip_trait_bound(tree: &SyntaxTree, offset: usize) -> (r: Option<Edit>)
    requires
        tree.wf(),
    ensures
        (r matches Option::Some(_)) == flip_applicable(*tree, offset as int),
        r matches Option::Some(e) ==> (tree.token_at(offset as int) matches Option::Some(t)
            && tree.non_trivia_sibling_spec(t, Direction::Prev) matches Option::Some(l)
            && tree.non_trivia_sibling_spec(t, Direction::Next) matches Option::Some(rr)
            && is_swap_edit(*tree, e, t, l as int, rr as int) && e.wf_for(
            tree.source@.len() as int,
        ) && e.apply_spec(tree.source@) == swap_text(
            tree.source@,
            tree.range_of(l as int).start as int,
            tree.range_of(l as int).end as int,
            tree.range_of(rr as int).start as int,
            tree.range_of(rr as int).end as int,
        )),
{
    proof {
        tree.lemma_token_at_props(offset as int);
    }
    let t = match tree.find_token_at_offset(offset) {
        None => {
            return None;
        },
        Some(t) => t,
    };
    if tree.elems[t].get_kind() != SyntaxKind::Separator {
        return None;
    }
    if !tree.is_recognized_context(t) {
        return None;
    }
    let before = tree.non_trivia_sibling(t, Direction::Prev);
    let after = tree.non_trivia_sibling(t, Direction::Next);
    match (before, after) {
        (Some(l), Some(rr)) => Some(build_swap(tree, t, l, rr)),
        _ => None,
    }
}

/// Not-applicable law: in a tree without any separator token (for one, a
/// single-element list has none), the assist is never offered.
pub proof fn lemma_not_applicable_without_separator(tree: SyntaxTree, offset: int)
    requires
        forall|i: int| tree.valid(i) ==> #[trigger] tree.kind_of(i) != SyntaxKind::Separator,
    ensures
        !flip_applicable(tree, offset),
{
    tree.lemma_token_at_props(offset);
}

/// Not-applicable law: a token that is not the designated separator never
/// offers the assist, wherever the cursor sits on it.
pub proof fn lemma_not_applicable_not_separator(tree: SyntaxTree, offset: int)
    requires
        tree.token_at(offset) matches Option::Some(t) && tree.kind_of(t) != SyntaxKind::Separator,
    ensures
        !flip_applicable(tree, offset),
{
}

/// Not-applicable law: a separator whose immediate parent is not a
/// recognized list construct never offers the assist.
pub proof fn lemma_not_applicable_outside_list(tree: SyntaxTree, offset: int)
    requires
        tree.token_at(offset) matches Option::Some(t) && !tree.recognized_context(t),
    ensures
        !flip_applicable(tree, offset),
{
}

/// Not-applicable law: at the edge of the list, where either neighbor
/// lookup comes back empty, no partial edit is ever built.
pub proof fn lemma_not_applicable_at_edge(tree: SyntaxTree, offset: int)
    requires
        tree.token_at(offset) matches Option::Some(t) && (tree.non_trivia_sibling_spec(
            t,
            Direction::Prev,
        ) matches Option::None || tree.non_trivia_sibling_spec(
            t,
            Direction::Next,
        ) matches Option::None),
    ensures
        !flip_applicable(tree, offset),
{
}

/// Edge-of-list law, positive half: on a separator in a recognized list
/// with a non-trivia sibling on each side (a two-element list is the
/// smallest case), the assist is applicable.
pub proof fn lemma_applicable_between_neighbors(tree: SyntaxTree, offset: int)
    requires
        tree.wf(),
        tree.token_at(offset) matches Option::Some(t) && {
            let p = tree.parent_of(t)->Some_0;
            let ch = tree.children_of(p as int);
            let k = tree.position_in_parent(p as int, t);
            &&& tree.valid(t)
            &&& tree.kind_of(t) == SyntaxKind::Separator
            &&& tree.recognized_context(t)
            &&& tree.parent_of(t) matches Option::Some(_)
            &&& exists|m: int| k < m < ch.len() && !tree.is_trivia_at(#[trigger] ch[m] as int)
            &&& exists|m: int| 0 <= m < k && !tree.is_trivia_at(#[trigger] ch[m] as int)
        },
    ensures
        flip_applicable(tree, offset),
{
    let t = tree.token_at(offset)->Some_0;
    tree.lemma_sibling_found(t, Direction::Next);
    tree.lemma_sibling_found(t, Direction::Prev);
}

} // verus!
