//! End-to-end tests for the swap assist: parse real Rust text, build the
//! arena tree, run the assist, apply the edit, compare.

use ra_ap_syntax::Edition;
use ra_ap_syntax::NodeOrToken;
use ra_ap_syntax::SourceFile;
use ra_ap_syntax::SyntaxNode;

use swap_assist::flip::flip_trait_bound;
use swap_assist::Element;
use swap_assist::SyntaxKind;
use swap_assist::SyntaxTree;
use swap_assist::TextRange;

fn extract_offset(text: &str) -> (usize, String) {
    let pos = text.find("<|>").expect("no cursor marker");
    let mut s = String::new();
    s.push_str(&text[..pos]);
    s.push_str(&text[pos + 3..]);
    (pos, s)
}

fn map_node_kind(k: ra_ap_syntax::SyntaxKind) -> SyntaxKind {
    if k == ra_ap_syntax::SyntaxKind::TYPE_BOUND_LIST {
        SyntaxKind::BoundList
    } else if k == ra_ap_syntax::SyntaxKind::ATTR {
        SyntaxKind::Attribute
    } else {
        SyntaxKind::OtherNode
    }
}

fn map_token_kind(k: ra_ap_syntax::SyntaxKind) -> SyntaxKind {
    if k == ra_ap_syntax::SyntaxKind::PLUS {
        SyntaxKind::Separator
    } else if k == ra_ap_syntax::SyntaxKind::WHITESPACE {
        SyntaxKind::Whitespace
    } else if k == ra_ap_syntax::SyntaxKind::COMMENT {
        SyntaxKind::Comment
    } else if k == ra_ap_syntax::SyntaxKind::BANG {
        SyntaxKind::Bang
    } else {
        SyntaxKind::OtherToken
    }
}

fn conv_range(r: ra_ap_syntax::TextRange) -> TextRange {
    TextRange { start: u32::from(r.start()) as usize, end: u32::from(r.end()) as usize }
}

fn push_node(node: &SyntaxNode, parent: Option<usize>, elems: &mut Vec<Element>) -> usize {
    let idx = elems.len();
    elems.push(Element::Node {
        kind: map_node_kind(node.kind()),
        parent,
        children: Vec::new(),
        range: conv_range(node.text_range()),
    });
    let mut children = Vec::new();
    for child in node.children_with_tokens() {
        match child {
            NodeOrToken::Node(n) => {
                children.push(push_node(&n, Some(idx), elems));
            }
            NodeOrToken::Token(t) => {
                let cidx = elems.len();
                elems.push(Element::Token {
                    kind: map_token_kind(t.kind()),
                    parent: Some(idx),
                    text: t.text().as_bytes().to_vec(),
                    range: conv_range(t.text_range()),
                });
                children.push(cidx);
            }
        }
    }
    if let Element::Node { children: ch, .. } = &mut elems[idx] {
        *ch = children;
    }
    idx
}

fn parse_tree(text: &str) -> SyntaxTree {
    let parse = SourceFile::parse(text, Edition::Edition2021);
    let node = parse.syntax_node();
    let mut elems = Vec::new();
    push_node(&node, None, &mut elems);
    let tree = SyntaxTree { source: text.as_bytes().to_vec(), elems };
    assert!(tree.wf_check(), "converted tree is not well-formed");
    tree
}

fn run_assist(text: &str) -> Option<(String, usize)> {
    let (offset, plain) = extract_offset(text);
    let tree = parse_tree(&plain);
    let edit = flip_trait_bound(&tree, offset)?;
    let src: Vec<u8> = plain.as_bytes().to_vec();
    let out = edit.apply(&src);
    let new_offset = edit.apply_to_offset(offset).expect("cursor inside replaced range");
    Some((String::from_utf8(out).expect("edit broke utf-8"), new_offset))
}

fn check_assist(before: &str, after: &str) {
    let (expected_offset, expected) = extract_offset(after);
    let (actual, new_offset) = run_assist(before).expect("assist not applicable");
    assert_eq!(actual, expected);
    assert_eq!(new_offset, expected_offset);
}

fn check_assist_not_applicable(text: &str) {
    let (offset, plain) = extract_offset(text);
    let tree = parse_tree(&plain);
    assert!(flip_trait_bound(&tree, offset).is_none());
}

fn check_assist_target(text: &str, target: &str) {
    let (offset, plain) = extract_offset(text);
    let tree = parse_tree(&plain);
    let edit = flip_trait_bound(&tree, offset).expect("assist not applicable");
    let t = edit.target.expect("edit has no target");
    assert_eq!(&plain[t.start..t.end], target);
}

#[test]
fn flip_trait_bound_assist_available() {
    check_assist_target("struct S<T> where T: A <|>+ B + C { }", "+")
}

#[test]
fn flip_trait_bound_not_applicable_for_single_trait_bound() {
    check_assist_not_applicable("struct S<T> where T: <|>A { }")
}

#[test]
fn flip_trait_bound_works_for_struct() {
    check_assist("struct S<T> where T: A <|>+ B { }", "struct S<T> where T: B <|>+ A { }")
}

#[test]
fn flip_trait_bound_works_for_trait_impl() {
    check_assist(
        "impl X for S<T> where T: A +<|> B { }",
        "impl X for S<T> where T: B +<|> A { }",
    )
}

#[test]
fn flip_trait_bound_works_for_fn() {
    check_assist("fn f<T: A <|>+ B>(t: T) { }", "fn f<T: B <|>+ A>(t: T) { }")
}

#[test]
fn flip_trait_bound_works_for_fn_where_clause() {
    check_assist(
        "fn f<T>(t: T) where T: A +<|> B { }",
        "fn f<T>(t: T) where T: B +<|> A { }",
    )
}

#[test]
fn flip_trait_bound_works_for_lifetime() {
    check_assist(
        "fn f<T>(t: T) where T: A <|>+ 'static { }",
        "fn f<T>(t: T) where T: 'static <|>+ A { }",
    )
}

#[test]
fn flip_trait_bound_works_for_complex_bounds() {
    check_assist(
        "struct S<T> where T: A<T> <|>+ b_mod::B<T> + C<T> { }",
        "struct S<T> where T: b_mod::B<T> <|>+ A<T> + C<T> { }",
    )
}

#[test]
fn flip_trait_bound_works_for_long_bounds() {
    check_assist(
        "struct S<T> where T: A + B + C + D + E + F +<|> G + H + I + J { }",
        "struct S<T> where T: A + B + C + D + E + G +<|> F + H + I + J { }",
    )
}

#[test]
fn flip_twice_restores_original_text() {
    let before = "struct S<T> where T: A<T> <|>+ b_mod::B<T> + C<T> { }";
    let (_, original) = extract_offset(before);
    let (once, cursor) = run_assist(before).expect("first swap not applicable");
    // recompute everything fresh against the post-edit text
    let tree = parse_tree(&once);
    let edit = flip_trait_bound(&tree, cursor).expect("second swap not applicable");
    let src: Vec<u8> = once.as_bytes().to_vec();
    let back = String::from_utf8(edit.apply(&src)).expect("edit broke utf-8");
    assert_eq!(back, original);
}

#[test]
fn trivia_between_elements_stays_in_place() {
    check_assist(
        "fn f<T>(t: T) where T: A /* note */ <|>+ B { }",
        "fn f<T>(t: T) where T: B /* note */ <|>+ A { }",
    );
    // and a comment survives a full swap-reparse-swap round trip
    let before = "fn f<T>(t: T) where T: A /* note */ <|>+ B { }";
    let (_, original) = extract_offset(before);
    let (once, cursor) = run_assist(before).expect("first swap not applicable");
    assert!(once.contains("/* note */"));
    let tree = parse_tree(&once);
    let edit = flip_trait_bound(&tree, cursor).expect("second swap not applicable");
    let src: Vec<u8> = once.as_bytes().to_vec();
    let back = String::from_utf8(edit.apply(&src)).expect("edit broke utf-8");
    assert_eq!(back, original);
}

#[test]
fn swap_touches_only_the_two_neighbors() {
    let (actual, _) = run_assist("struct S<T> where T: Aa <|>+ Bbbb + C { }")
        .expect("assist not applicable");
    // separator, its surrounding spaces, and the rest of the list are intact
    assert_eq!(actual, "struct S<T> where T: Bbbb + Aa + C { }");
}

#[test]
fn not_applicable_outside_recognized_list() {
    // a `+` of ordinary arithmetic is not in a bound list
    check_assist_not_applicable("fn f() { let x = 1 <|>+ 2; }")
}

#[test]
fn not_applicable_on_list_element_token() {
    // cursor on the first element itself, not on a separator
    check_assist_not_applicable("struct S<T> where T: <|>A + B { }");
    // and on the last element
    check_assist_not_applicable("struct S<T> where T: A + B<|> { }");
}

#[test]
fn two_element_list_finds_both_neighbors() {
    // smallest applicable list: both lookups must succeed from either side
    check_assist("struct S<T> where T: A <|>+ B { }", "struct S<T> where T: B <|>+ A { }");
    check_assist("struct S<T> where T: A +<|> B { }", "struct S<T> where T: B +<|> A { }");
}

#[test]
fn boundary_policy_is_deterministic() {
    // a separator touching the offset always wins, even when another
    // token properly contains the offset: the cursor right after the `+`
    // sits inside the following space, yet the `+` is picked
    let (offset, plain) = extract_offset("struct S<T> where T: A +<|> B { }");
    let tree = parse_tree(&plain);
    let t = tree.find_token_at_offset(offset).expect("no token found");
    assert_eq!(tree.element_text(t), b"+".to_vec());

    let text = "fn fo() {}";
    let tree = parse_tree(text);
    // with no separator in play, the token properly containing the offset
    // wins: offset 2 is the boundary between `fn` and the space, and the
    // space `[2, 3)` contains it half-open
    let t = tree.find_token_at_offset(2).expect("no token found");
    assert_eq!(tree.element_text(t), b" ".to_vec());
    // offset 4 sits properly inside `fo`
    let t2 = tree.find_token_at_offset(4).expect("no token found");
    assert_eq!(tree.element_text(t2), b"fo".to_vec());
    // at the very end of the text nothing contains the offset half-open;
    // the token merely touching it (ending there) is picked
    let t3 = tree.find_token_at_offset(text.len()).expect("no token found");
    assert_eq!(tree.element_text(t3), b"}".to_vec());
}

fn find_token_by_text(tree: &SyntaxTree, needle: &str) -> usize {
    for i in 0..tree.elems.len() {
        if let Element::Token { text, .. } = &tree.elems[i] {
            if text.as_slice() == needle.as_bytes() {
                return i;
            }
        }
    }
    panic!("token not found");
}

fn labels_of(items: &[swap_assist::attrs::CompletionItem]) -> Vec<&'static str> {
    items.iter().map(|it| it.label).collect()
}

#[test]
fn complete_attribute_does_nothing_outside_attribute_position() {
    let tree = parse_tree("fn f() {}");
    let catalog = swap_assist::attrs::attributes();
    let ctx = swap_assist::attrs::CompletionContext {
        is_attribute: false,
        source_range: TextRange { start: 0, end: 0 },
        name_ref: None,
    };
    let mut acc: swap_assist::attrs::Completions = Vec::new();
    swap_assist::attrs::complete_attribute(&mut acc, &catalog, &tree, &ctx);
    assert!(acc.is_empty());
}

#[test]
fn complete_attribute_filters_inner_only_entries_in_outer_position() {
    let tree = parse_tree("#[test] fn f() {}");
    let e = find_token_by_text(&tree, "test");
    let catalog = swap_assist::attrs::attributes();
    let ctx = swap_assist::attrs::CompletionContext {
        is_attribute: true,
        source_range: TextRange { start: 2, end: 6 },
        name_ref: Some(e),
    };
    let mut acc: swap_assist::attrs::Completions = Vec::new();
    swap_assist::attrs::complete_attribute(&mut acc, &catalog, &tree, &ctx);
    let labels = labels_of(&acc);
    // the six inner-only entries are withheld
    assert_eq!(acc.len(), 23);
    assert!(labels.contains(&"allow"));
    assert!(labels.contains(&"derive"));
    assert!(!labels.contains(&"no_std"));
    assert!(!labels.contains(&"feature"));
    assert!(!labels.contains(&"global_allocator"));
    // every emitted item carries the request's source range
    assert!(acc.iter().all(|it| it.source_range.start == 2 && it.source_range.end == 6));
}

#[test]
fn complete_attribute_emits_everything_in_inner_form() {
    let tree = parse_tree("#![no_std] fn f() {}");
    let e = find_token_by_text(&tree, "no_std");
    let catalog = swap_assist::attrs::attributes();
    let ctx = swap_assist::attrs::CompletionContext {
        is_attribute: true,
        source_range: TextRange { start: 3, end: 9 },
        name_ref: Some(e),
    };
    let mut acc: swap_assist::attrs::Completions = Vec::new();
    swap_assist::attrs::complete_attribute(&mut acc, &catalog, &tree, &ctx);
    let labels = labels_of(&acc);
    assert_eq!(acc.len(), 29);
    assert!(labels.contains(&"no_std"));
    assert!(labels.contains(&"recursion_limit"));
    assert_eq!(labels[0], "allow");
}

#[test]
fn complete_attribute_without_name_ref_stays_in_outer_form() {
    let tree = parse_tree("fn f() {}");
    let catalog = swap_assist::attrs::attributes();
    let ctx = swap_assist::attrs::CompletionContext {
        is_attribute: true,
        source_range: TextRange { start: 0, end: 0 },
        name_ref: None,
    };
    let mut acc: swap_assist::attrs::Completions = Vec::new();
    swap_assist::attrs::complete_attribute(&mut acc, &catalog, &tree, &ctx);
    assert_eq!(acc.len(), 23);
}

#[test]
fn apply_to_offset_maps_positions_through_the_edit() {
    let (offset, plain) = extract_offset("struct S<T> where T: Aa <|>+ Bbbb { }");
    let tree = parse_tree(&plain);
    let edit = flip_trait_bound(&tree, offset).expect("assist not applicable");
    // a position before both replacements is unchanged
    assert_eq!(edit.apply_to_offset(0), Some(0));
    // the cursor on the separator shifts by the growth of the left element
    assert_eq!(edit.apply_to_offset(offset), Some(offset + 2));
    // a position inside a replaced range has no stable image
    assert_eq!(edit.apply_to_offset(offset + 3), None);
}

#[test]
fn wf_check_rejects_broken_parent_link() {
    let tree = SyntaxTree {
        source: b"a".to_vec(),
        elems: vec![
            Element::Node {
                kind: SyntaxKind::OtherNode,
                parent: None,
                children: vec![1],
                range: TextRange { start: 0, end: 1 },
            },
            Element::Token {
                kind: SyntaxKind::OtherToken,
                parent: None, // should point back to 0
                text: b"a".to_vec(),
                range: TextRange { start: 0, end: 1 },
            },
        ],
    };
    assert!(!tree.wf_check());
}
