//! Completion for attributes: a pure filter-and-emit over a fixed catalog,
//! gated by attribute position and, per entry, by inner-attribute form.

use vstd::prelude::*;

use crate::text::TextRange;
use crate::tree::Element;
use crate::tree::SyntaxKind;
use crate::tree::SyntaxTree;

verus! {

/// One catalog entry: an attribute name, its optional insertion template,
/// and whether it may only appear as an inner attribute.
pub struct AttrCompletion {
    pub label: &'static str,
    pub snippet: Option<&'static str>,
    pub should_be_inner: bool,
}

/// One emitted completion.
pub struct CompletionItem {
    pub label: &'static str,
    pub snippet: Option<&'static str>,
    pub source_range: TextRange,
}

/// The collected completions.
pub type Completions = Vec<CompletionItem>;

/// What the core reads of a completion request: whether the cursor sits
/// in attribute position, the range the completion replaces, and the
/// element the request names (for the inner-attribute probe).
pub struct CompletionContext {
    pub is_attribute: bool,
    pub source_range: TextRange,
    pub name_ref: Option<usize>,
}

/// The emission rule: an entry restricted to inner position is emitted
/// only inside an inner-form attribute; every other entry always is.
pub open spec fn emits(a: AttrCompletion, is_inner: bool) -> bool {
    !a.should_be_inner || is_inner
}

pub open spec fn item_of(a: AttrCompletion, sr: TextRange) -> CompletionItem {
    CompletionItem { label: a.label, snippet: a.snippet, source_range: sr }
}

/// The items emitted from `cat`, in catalog order.
pub open spec fn emitted(cat: Seq<AttrCompletion>, sr: TextRange, is_inner: bool) -> Seq<
    CompletionItem,
>
    decreases cat.len(),
{
    if cat.len() == 0 {
        Seq::empty()
    } else if emits(cat[0], is_inner) {
        seq![item_of(cat[0], sr)] + emitted(cat.skip(1), sr, is_inner)
    } else {
        emitted(cat.skip(1), sr, is_inner)
    }
}

impl SyntaxTree {
    /// The nearest enclosing attribute node of `e`, `e` itself included.
    pub open spec fn nearest_attribute(self, e: int) -> Option<int>
        decreases e,
    {
        if !self.elems@[e].is_token() && self.kind_of(e) == SyntaxKind::Attribute {
            Option::Some(e)
        } else {
            match self.parent_of(e) {
                Option::Some(p) => {
                    if 0 <= (p as int) < e {
                        self.nearest_attribute(p as int)
                    } else {
                        Option::None
                    }
                },
                Option::None => Option::None,
            }
        }
    }

    /// Whether attribute node `a` carries the inner-form marker token.
    pub open spec fn has_bang_child(self, a: int) -> bool {
        exists|k: int|
            0 <= k < self.children_of(a).len() && self.kind_of(
                #[trigger] self.children_of(a)[k] as int,
            ) == SyntaxKind::Bang
    }

    /// Whether `e` sits inside an attribute written in inner form.
    pub open spec fn in_inner_attribute(self, e: int) -> bool {
        match self.nearest_attribute(e) {
            Option::Some(a) => self.has_bang_child(a),
            Option::None => false,
        }
    }

    /// Climbs the ancestor chain from `e` looking for an attribute node,
    /// and reports whether that attribute is in inner form.
    #[verifier::loop_isolation(false)]
    pub fn attribute_is_inner_form(&self, e: usize) -> (r: bool)
        requires
            self.wf(),
            self.valid(e as int),
        ensures
            r == self.in_inner_attribute(e as int),
        decreases e,
    {
        proof {
            assert(self.wf_at(e as int));
        }
        let el = &self.elems[e];
        if !el.get_is_token() && el.get_kind() == SyntaxKind::Attribute {
            match el {
                Element::Token { .. } => {
                    proof {
                        assert(false);
                    }
                    false
                },
                Element::Node { children, .. } => {
                    let n = children.len();
                    let mut k: usize = 0;
                    while k < n
                        invariant
                            k <= n,
                            forall|m: int|
                                0 <= m < k ==> self.kind_of(
                                    #[trigger] self.children_of(e as int)[m] as int,
                                ) != SyntaxKind::Bang,
                        decreases n - k,
                    {
                        let c = children[k];
                        if self.elems[c].get_kind() == SyntaxKind::Bang {
                            return true;
                        }
                        k = k + 1;
                    }
                    false
                },
            }
        } else {
            match el.get_parent() {
                Some(p) => self.attribute_is_inner_form(p),
                None => false,
            }
        }
    }
}

/// The built-in attribute catalog, as data.
pub open spec fn attr_catalog() -> Seq<AttrCompletion> {
    seq![
        AttrCompletion { label: "allow", snippet: Some("allow(${0:lint})"), should_be_inner: false },
        AttrCompletion {
            label: "cfg_attr",
            snippet: Some("cfg_attr(${1:flag}, ${0:attr})"),
            should_be_inner: false,
        },
        AttrCompletion { label: "cfg", snippet: Some("cfg(${0:flag})"), should_be_inner: false },
        AttrCompletion { label: "deny", snippet: Some("deny(${0:lint})"), should_be_inner: false },
        AttrCompletion {
            label: "deprecated",
            snippet: Some("deprecated = \"${0:warning}\""),
            should_be_inner: false,
        },
        AttrCompletion {
            label: "derive",
            snippet: Some("derive(${0:Debug})"),
            should_be_inner: false,
        },
        AttrCompletion {
            label: "doc",
            snippet: Some("doc = \"${0:docs}\""),
            should_be_inner: false,
        },
        AttrCompletion {
            label: "feature",
            snippet: Some("feature(${0:flag})"),
            should_be_inner: true,
        },
        AttrCompletion { label: "global_allocator", snippet: None, should_be_inner: true },
        AttrCompletion {
            label: "ignore",
            snippet: Some("ignore(${0:lint})"),
            should_be_inner: false,
        },
        AttrCompletion {
            label: "inline",
            snippet: Some("inline(${0:lint})"),
            should_be_inner: false,
        },
        AttrCompletion {
            label: "link_name",
            snippet: Some("link_name = \"${0:symbol_name}\""),
            should_be_inner: false,
        },
        AttrCompletion { label: "link", snippet: None, should_be_inner: false },
        AttrCompletion { label: "macro_export", snippet: None, should_be_inner: false },
        AttrCompletion { label: "macro_use", snippet: None, should_be_inner: false },
        AttrCompletion {
            label: "must_use",
            snippet: Some("must_use = \"${0:message}\""),
            should_be_inner: false,
        },
        AttrCompletion { label: "no_mangle", snippet: None, should_be_inner: false },
        AttrCompletion { label: "no_std", snippet: None, should_be_inner: true },
        AttrCompletion { label: "non_exhaustive", snippet: None, should_be_inner: false },
        AttrCompletion { label: "panic_handler", snippet: None, should_be_inner: true },
        AttrCompletion {
            label: "path",
            snippet: Some("path =\"${0:path}\""),
            should_be_inner: false,
        },
        AttrCompletion {
            label: "recursion_limit",
            snippet: Some("recursion_limit = ${0:128}"),
            should_be_inner: true,
        },
        AttrCompletion { label: "repr", snippet: Some("repr(${0:Rust})"), should_be_inner: false },
        AttrCompletion {
            label: "should_panic",
            snippet: Some("expected = \"${0:message}\""),
            should_be_inner: false,
        },
        AttrCompletion {
            label: "target_feature",
            snippet: Some("target_feature = \"${0:feature}\""),
            should_be_inner: false,
        },
        AttrCompletion { label: "test", snippet: None, should_be_inner: false },
        AttrCompletion { label: "used", snippet: None, should_be_inner: false },
        AttrCompletion { label: "warn", snippet: Some("warn(${0:lint})"), should_be_inner: false },
        AttrCompletion {
            label: "windows_subsystem",
            snippet: Some("windows_subsystem = \"${0:subsystem}\""),
            should_be_inner: true,
        },
    ]
}

/// The built-in attribute catalog, as an executable table.
pub fn attributes() -> (r: Vec<AttrCompletion>)
    ensures
        r@ == attr_catalog(),
{
    let mut v: Vec<AttrCompletion> = Vec::new();
    v.push(AttrCompletion { label: "allow", snippet: Some("allow(${0:lint})"), should_be_inner: false });
    v.push(AttrCompletion {
        label: "cfg_attr",
        snippet: Some("cfg_attr(${1:flag}, ${0:attr})"),
        should_be_inner: false,
    });
    v.push(AttrCompletion { label: "cfg", snippet: Some("cfg(${0:flag})"), should_be_inner: false });
    v.push(AttrCompletion { label: "deny", snippet: Some("deny(${0:lint})"), should_be_inner: false });
    v.push(AttrCompletion {
        label: "deprecated",
        snippet: Some("deprecated = \"${0:warning}\""),
        should_be_inner: false,
    });
    v.push(AttrCompletion {
        label: "derive",
        snippet: Some("derive(${0:Debug})"),
        should_be_inner: false,
    });
    v.push(AttrCompletion {
        label: "doc",
        snippet: Some("doc = \"${0:docs}\""),
        should_be_inner: false,
    });
    v.push(AttrCompletion {
        label: "feature",
        snippet: Some("feature(${0:flag})"),
        should_be_inner: true,
    });
    v.push(AttrCompletion { label: "global_allocator", snippet: None, should_be_inner: true });
    v.push(AttrCompletion {
        label: "ignore",
        snippet: Some("ignore(${0:lint})"),
        should_be_inner: false,
    });
    v.push(AttrCompletion {
        label: "inline",
        snippet: Some("inline(${0:lint})"),
        should_be_inner: false,
    });
    v.push(AttrCompletion {
        label: "link_name",
        snippet: Some("link_name = \"${0:symbol_name}\""),
        should_be_inner: false,
    });
    v.push(AttrCompletion { label: "link", snippet: None, should_be_inner: false });
    v.push(AttrCompletion { label: "macro_export", snippet: None, should_be_inner: false });
    v.push(AttrCompletion { label: "macro_use", snippet: None, should_be_inner: false });
    v.push(AttrCompletion {
        label: "must_use",
        snippet: Some("must_use = \"${0:message}\""),
        should_be_inner: false,
    });
    v.push(AttrCompletion { label: "no_mangle", snippet: None, should_be_inner: false });
    v.push(AttrCompletion { label: "no_std", snippet: None, should_be_inner: true });
    v.push(AttrCompletion { label: "non_exhaustive", snippet: None, should_be_inner: false });
    v.push(AttrCompletion { label: "panic_handler", snippet: None, should_be_inner: true });
    v.push(AttrCompletion {
        label: "path",
        snippet: Some("path =\"${0:path}\""),
        should_be_inner: false,
    });
    v.push(AttrCompletion {
        label: "recursion_limit",
        snippet: Some("recursion_limit = ${0:128}"),
        should_be_inner: true,
    });
    v.push(AttrCompletion { label: "repr", snippet: Some("repr(${0:Rust})"), should_be_inner: false });
    v.push(AttrCompletion {
        label: "should_panic",
        snippet: Some("expected = \"${0:message}\""),
        should_be_inner: false,
    });
    v.push(AttrCompletion {
        label: "target_feature",
        snippet: Some("target_feature = \"${0:feature}\""),
        should_be_inner: false,
    });
    v.push(AttrCompletion { label: "test", snippet: None, should_be_inner: false });
    v.push(AttrCompletion { label: "used", snippet: None, should_be_inner: false });
    v.push(AttrCompletion { label: "warn", snippet: Some("warn(${0:lint})"), should_be_inner: false });
    v.push(AttrCompletion {
        label: "windows_subsystem",
        snippet: Some("windows_subsystem = \"${0:subsystem}\""),
        should_be_inner: true,
    });
    proof {
        assert(v@ =~= attr_catalog());
    }
    v
}

/// The inner-form flag a completion request resolves to: absent a named
/// element, the request is not inside an inner attribute.
pub open spec fn inner_flag(tree: SyntaxTree, ctx: CompletionContext) -> bool {
    match ctx.name_ref {
        Option::Some(e) => tree.in_inner_attribute(e as int),
        Option::None => false,
    }
}

/// Filters the catalog into `acc`: nothing happens outside attribute
/// position; inside it, exactly the entries the emission rule allows are
/// appended, in catalog order, each carrying the request's source range.
#[verifier::loop_isolation(false)]
pub fn complete_attribute(
    acc: &mut Completions,
    catalog: &Vec<AttrCompletion>,
    tree: &SyntaxTree,
    ctx: &CompletionContext,
)
    requires
        tree.wf(),
        ctx.name_ref matches Option::Some(e) ==> tree.valid(e as int),
    ensures
        final (acc)@ == old(acc)@ + (if ctx.is_attribute {
            emitted(catalog@, ctx.source_range, inner_flag(*tree, *ctx))
        } else {
            Seq::<CompletionItem>::empty()
        }),
{
    if !ctx.is_attribute {
        proof {
            assert(acc@ =~= old(acc)@ + Seq::<CompletionItem>::empty());
        }
        return ;
    }
    let is_inner = match ctx.name_ref {
        Some(e) => tree.attribute_is_inner_form(e),
        None => false,
    };
    let ghost total = emitted(catalog@, ctx.source_range, is_inner);
    let n = catalog.len();
    let mut k: usize = 0;
    proof {
        assert(catalog@.skip(0) =~= catalog@);
    }
    while k < n
        invariant
            k <= n,
            old(acc)@ + total =~= acc@ + emitted(
                catalog@.skip(k as int),
                ctx.source_range,
                is_inner,
            ),
        decreases n - k,
    {
        let a = &catalog[k];
        proof {
            assert(catalog@.skip(k as int)[0] == catalog@[k as int]);
            assert(catalog@.skip(k as int).skip(1) =~= catalog@.skip(k as int + 1));
        }
        if is_inner || !a.should_be_inner {
            acc.push(
                CompletionItem {
                    label: a.label,
                    snippet: a.snippet,
                    source_range: ctx.source_range,
                },
            );
        }
        proof {
            assert(old(acc)@ + total =~= acc@ + emitted(
                catalog@.skip(k as int + 1),
                ctx.source_range,
                is_inner,
            ));
        }
        k = k + 1;
    }
    proof {
        assert(catalog@.skip(n as int) =~= Seq::<AttrCompletion>::empty());
        assert(acc@ =~= old(acc)@ + total);
    }
}

} // verus!
