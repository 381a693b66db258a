//! The page snapshot: a root element tree together with the selector
//! registry built from it. Rebuilding is atomic — the registry is cleared
//! and repopulated in one pass over the tree, so root and registry are
//! never out of sync.
//!
//! The indexing pass walks the tree depth first, parent before children,
//! children in document order; every node that is classified interactive
//! and is visible registers a selector and receives the next index. That
//! ordering is what makes indices reproducible on an unchanged page.

use vstd::prelude::*;
use vstd::string::*;

use crate::element::{
    children_view, count_children, count_nodes, lemma_attr_view, lemma_children_view,
    lemma_children_view_snoc, node_view, qualifies, simplified, spec_attr, spec_interactive,
    ElementNode, NodeView,
};
use crate::selector_map::{ElementSelector, SelectorMap, SelectorView};
use crate::strutil::{first_word, first_word_str, spec_digits, usize_to_string};

verus! {

/// The number of index-earning (interactive and visible) nodes in the
/// subtree.
pub open spec fn qcount(v: NodeView) -> nat
    decreases v,
{
    (if qualifies(v) {
        1nat
    } else {
        0nat
    }) + qcount_children(v.children)
}

/// The number of index-earning nodes under a child sequence.
pub open spec fn qcount_children(s: Seq<NodeView>) -> nat
    decreases s,
{
    if s.len() == 0 {
        0
    } else {
        qcount(s[0]) + qcount_children(s.drop_first())
    }
}

/// The path-based fallback locator of the `j`-th child (1-based) with tag
/// `tag` under a parent located by `p`.
pub open spec fn child_path(p: Seq<char>, tag: Seq<char>, j: nat) -> Seq<char> {
    p + " > "@ + tag + ":nth-child("@ + spec_digits(j) + ")"@
}

/// The text preview stored with a selector: at most 50 characters, with an
/// ellipsis marker when the source text is longer.
pub open spec fn preview(t: Seq<char>) -> Seq<char> {
    if t.len() > 50 {
        t.subrange(0, 50) + "..."@
    } else {
        t
    }
}

/// The selector synthesized for a node whose path-based locator is `path`:
/// an id locator is preferred, then tag plus first class, then the path.
pub open spec fn selector_for(v: NodeView, path: Seq<char>) -> SelectorView {
    let css = match spec_attr(v.attributes, "id"@) {
        Some(id) => "#"@ + id,
        None => match spec_attr(v.attributes, "class"@) {
            Some(c) => v.tag_name + "."@ + first_word(c),
            None => path,
        },
    };
    SelectorView {
        css_selector: css,
        xpath: None,
        tag_name: v.tag_name,
        id: spec_attr(v.attributes, "id"@),
        text: match v.text_content {
            Some(t) => Some(preview(t)),
            None => None,
        },
    }
}

/// The selectors of the subtree's index-earning nodes, in depth-first
/// pre-order, each with the path its node would fall back to.
pub open spec fn sels_node(v: NodeView, path: Seq<char>) -> Seq<SelectorView>
    decreases v,
{
    (if qualifies(v) {
        seq![selector_for(v, path)]
    } else {
        Seq::empty()
    }) + sels_children(v.children, path, 1)
}

/// The selectors under a child sequence whose first element is the `j`-th
/// child (1-based) of a parent located by `parent`.
pub open spec fn sels_children(s: Seq<NodeView>, parent: Seq<char>, j: nat) -> Seq<SelectorView>
    decreases s,
{
    if s.len() == 0 {
        Seq::empty()
    } else {
        sels_node(s[0], child_path(parent, s[0].tag_name, j)) + sels_children(
            s.drop_first(),
            parent,
            j + 1,
        )
    }
}

/// The tree after the indexing pass, with indices assigned in pre-order
/// starting at `start`: interactivity is recomputed, an index-earning node
/// carries the next index, and every other node carries none.
pub open spec fn indexed(v: NodeView, start: nat) -> NodeView
    decreases v,
{
    NodeView {
        is_interactive: spec_interactive(v),
        index: if qualifies(v) {
            Some(start as usize)
        } else {
            None
        },
        children: indexed_children(
            v.children,
            start + if qualifies(v) {
                1nat
            } else {
                0nat
            },
        ),
        ..v
    }
}

/// The indexing pass over a child sequence, starting at `start`.
pub open spec fn indexed_children(s: Seq<NodeView>, start: nat) -> Seq<NodeView>
    decreases s,
{
    if s.len() == 0 {
        Seq::empty()
    } else {
        seq![indexed(s[0], start)] + indexed_children(s.drop_first(), start + qcount(s[0]))
    }
}

/// Selectors paired with the registry keys they receive when registration
/// starts at key `k`.
pub open spec fn numbered(sels: Seq<SelectorView>, k: nat) -> Seq<(usize, SelectorView)> {
    Seq::new(sels.len(), |i: int| ((k + i) as usize, sels[i]))
}

proof fn lemma_numbered_concat(a: Seq<SelectorView>, b: Seq<SelectorView>, k: nat)
    ensures
        numbered(a + b, k) == numbered(a, k) + numbered(b, (k + a.len()) as nat),
{
    assert(numbered(a + b, k) =~= numbered(a, k) + numbered(b, (k + a.len()) as nat));
}

proof fn lemma_qcount_children_snoc(s: Seq<NodeView>, x: NodeView)
    ensures
        qcount_children(s.push(x)) == qcount_children(s) + qcount(x),
    decreases s.len(),
{
    if s.len() == 0 {
        assert(s.push(x)[0] == x);
        assert(s.push(x).drop_first() =~= s);
    } else {
        assert(s.push(x)[0] == s[0]);
        assert(s.push(x).drop_first() =~= s.drop_first().push(x));
        lemma_qcount_children_snoc(s.drop_first(), x);
    }
}

proof fn lemma_sels_children_snoc(s: Seq<NodeView>, x: NodeView, parent: Seq<char>, j: nat)
    ensures
        sels_children(s.push(x), parent, j) == sels_children(s, parent, j) + sels_node(
            x,
            child_path(parent, x.tag_name, (j + s.len()) as nat),
        ),
    decreases s.len(),
{
    if s.len() == 0 {
        assert(s.push(x)[0] == x);
        assert(s.push(x).drop_first() =~= s);
        assert(sels_children(s.push(x), parent, j) == sels_node(
            x,
            child_path(parent, x.tag_name, j),
        ) + sels_children(s, parent, (j + 1) as nat));
        assert(sels_children(s, parent, (j + 1) as nat) =~= Seq::<SelectorView>::empty());
        assert(sels_children(s, parent, j) =~= Seq::<SelectorView>::empty());
        assert(sels_children(s.push(x), parent, j) =~= sels_children(s, parent, j) + sels_node(
            x,
            child_path(parent, x.tag_name, j),
        ));
    } else {
        assert(s.push(x)[0] == s[0]);
        assert(s.push(x).drop_first() =~= s.drop_first().push(x));
        lemma_sels_children_snoc(s.drop_first(), x, parent, (j + 1) as nat);
        assert(sels_children(s.push(x), parent, j) =~= sels_children(s, parent, j) + sels_node(
            x,
            child_path(parent, x.tag_name, (j + s.len()) as nat),
        ));
    }
}

proof fn lemma_indexed_children_snoc(s: Seq<NodeView>, x: NodeView, start: nat)
    ensures
        indexed_children(s.push(x), start) == indexed_children(s, start).push(
            indexed(x, (start + qcount_children(s)) as nat),
        ),
    decreases s.len(),
{
    if s.len() == 0 {
        assert(s.push(x)[0] == x);
        assert(s.push(x).drop_first() =~= s);
        assert(indexed_children(s.push(x), start) == seq![indexed(x, start)] + indexed_children(
            s,
            start + qcount(x),
        ));
        assert(indexed_children(s, start + qcount(x)) =~= Seq::<NodeView>::empty());
        assert(indexed_children(s, start) =~= Seq::<NodeView>::empty());
        assert(indexed_children(s.push(x), start) =~= indexed_children(s, start).push(
            indexed(x, start),
        ));
    } else {
        assert(s.push(x)[0] == s[0]);
        assert(s.push(x).drop_first() =~= s.drop_first().push(x));
        lemma_indexed_children_snoc(s.drop_first(), x, (start + qcount(s[0])) as nat);
        assert(indexed_children(s.push(x), start) =~= indexed_children(s, start).push(
            indexed(x, (start + qcount_children(s)) as nat),
        ));
    }
}

/// Splitting a child sequence splits its count of index-earning nodes.
proof fn lemma_qcount_children_split(s: Seq<NodeView>, i: int)
    requires
        0 <= i <= s.len(),
    ensures
        qcount_children(s) == qcount_children(s.subrange(0, i)) + qcount_children(
            s.subrange(i, s.len() as int),
        ),
    decreases i,
{
    if i == 0 {
        assert(s.subrange(0, 0) =~= Seq::<NodeView>::empty());
        assert(s.subrange(0, s.len() as int) =~= s);
    } else {
        lemma_qcount_children_split(s.subrange(1, s.len() as int), i - 1);
        let t = s.subrange(1, s.len() as int);
        assert(s.drop_first() =~= t);
        assert(t.subrange(0, i - 1) =~= s.subrange(0, i).drop_first());
        assert(t.subrange(i - 1, t.len() as int) =~= s.subrange(i, s.len() as int));
        assert(s.subrange(0, i)[0] == s[0]);
        assert(qcount_children(s.subrange(0, i)) == qcount(s[0]) + qcount_children(
            s.subrange(0, i).drop_first(),
        ));
    }
}

/// Build the selector record for one node whose path-based fallback locator
/// is `css_path`.
fn build_selector(node: &ElementNode, css_path: &str) -> (r: ElementSelector)
    ensures
        r@ == selector_for(node@, css_path@),
{
    proof {
        lemma_attr_view(node.attributes@, "id"@);
        lemma_attr_view(node.attributes@, "class"@);
    }
    let css: String = match node.id() {
        Some(id) => {
            let mut c = String::from_str("#");
            c.append(id.as_str());
            c
        },
        None => {
            match node.get_attribute("class") {
                Some(class_attr) => {
                    let mut c = String::from_str(node.tag_name.as_str());
                    c.append(".");
                    c.append(first_word_str(class_attr.as_str()));
                    c
                },
                None => css_path.to_owned(),
            }
        },
    };
    let mut selector = ElementSelector::new(css.as_str(), node.tag_name.as_str());
    match node.id() {
        Some(id) => {
            selector = selector.with_id(id.as_str());
        },
        None => {},
    }
    match &node.text_content {
        Some(text) => {
            let n = text.as_str().unicode_len();
            if n > 50 {
                let mut p = text.as_str().substring_char(0, 50).to_owned();
                p.append("...");
                selector = selector.with_text(p.as_str());
            } else {
                selector = selector.with_text(text.as_str());
            }
        },
        None => {},
    }
    proof {
        assert(selector@ =~= selector_for(node@, css_path@));
    }
    selector
}

/// The indexing pass over one subtree: classify this node, register it if
/// it earns an index, then recurse into the children in document order.
fn index_node(node: ElementNode, css_path: &str, map: &mut SelectorMap) -> (r: ElementNode)
    requires
        old(map).wf(),
        old(map).next_index + qcount(node@) <= usize::MAX,
    ensures
        final(map).wf(),
        final(map).next_index == old(map).next_index + qcount(node@),
        final(map).entry_views() == old(map).entry_views() + numbered(
            sels_node(node@, css_path@),
            old(map).next_index as nat,
        ),
        r@ == indexed(node@, old(map).next_index as nat),
    decreases node,
{
    let ghost start0 = old(map).next_index as nat;
    let ghost base = old(map).entry_views();
    let mut work = node;
    work.compute_interactivity();
    let qual = work.is_interactive && work.is_visible;
    proof {
        assert(qual == qualifies(node@));
    }
    if qual {
        let sel = build_selector(&work, css_path);
        proof {
            assert(selector_for(work@, css_path@) =~= selector_for(node@, css_path@));
        }
        let idx = map.register(sel);
        work.index = Some(idx);
        proof {
            assert(map.entry_views() =~= base.push(((start0 as usize), selector_for(node@, css_path@))));
        }
    } else {
        work.index = None;
    }
    let ghost start_kids = start0 + (if qualifies(node@) {
        1nat
    } else {
        0nat
    });
    let ghost head_sels = if qualifies(node@) {
        seq![selector_for(node@, css_path@)]
    } else {
        Seq::<SelectorView>::empty()
    };
    proof {
        assert(map.entry_views() =~= base + numbered(head_sels, start0));
    }
    let ElementNode {
        tag_name,
        attributes,
        text_content,
        mut children,
        index,
        is_visible,
        is_interactive,
        bounding_box,
    } = work;
    let ghost orig = children@;
    proof {
        assert(orig == node.children@);
        assert(node@.children == children_view(orig));
        lemma_qcount_children_split(children_view(orig), 0);
    }
    let total = children.len();
    let mut out: Vec<ElementNode> = Vec::new();
    let mut i: usize = 0;
    proof {
        lemma_children_view(orig);
        assert(children@ =~= orig.subrange(0, orig.len() as int));
        assert(children_view(orig).subrange(0, 0) =~= Seq::<NodeView>::empty());
        assert(children_view(orig).subrange(0, children_view(orig).len() as int) =~= children_view(
            orig,
        ));
    }
    while children.len() > 0
        invariant
            0 <= i <= total,
            total == orig.len(),
            orig == node.children@,
            orig.len() == children_view(orig).len(),
            children@ == orig.subrange(i as int, orig.len() as int),
            map.wf(),
            map.next_index as nat == start_kids + qcount_children(
                children_view(orig).subrange(0, i as int),
            ),
            map.next_index + qcount_children(
                children_view(orig).subrange(i as int, orig.len() as int),
            ) <= usize::MAX,
            map.entry_views() == base + numbered(head_sels, start0) + numbered(
                sels_children(children_view(orig).subrange(0, i as int), css_path@, 1),
                start_kids,
            ),
            children_view(out@) == indexed_children(
                children_view(orig).subrange(0, i as int),
                start_kids,
            ),
            out@.len() == i,
        decreases children.len(),
    {
        let ghost cv = children_view(orig);
        let ghost prefix = cv.subrange(0, i as int);
        let ghost suffix = cv.subrange(i as int, cv.len() as int);
        let child = children.remove(0);
        proof {
            assert(child == orig[i as int]);
            assert(children@ =~= orig.subrange(i + 1, orig.len() as int));
            lemma_children_view(orig);
            assert(cv[i as int] == node_view(child));
            // the suffix starts with this child's view
            assert(suffix[0] == cv[i as int]);
            assert(suffix.drop_first() =~= cv.subrange(i + 1, cv.len() as int));
            assert(qcount_children(suffix) == qcount(node_view(child)) + qcount_children(
                cv.subrange(i + 1, cv.len() as int),
            ));
        }
        let pos = i + 1;
        let mut cp = css_path.to_owned();
        cp.append(" > ");
        cp.append(child.tag_name.as_str());
        cp.append(":nth-child(");
        let d = usize_to_string(pos);
        cp.append(d.as_str());
        cp.append(")");
        proof {
            assert(cp@ =~= child_path(css_path@, node_view(child).tag_name, pos as nat));
            assert(decreases_to!(node => node.children));
            assert(decreases_to!(node.children => child));
        }
        let ghost mid_next = map.next_index as nat;
        proof {
            vstd::std_specs::vec::axiom_vec_index_decreases(node.children, i as int);
            assert(decreases_to!(node => child));
        }
        let ic = index_node(child, cp.as_str(), map);
        let ghost prev_out = out@;
        out.push(ic);
        i = i + 1;
        proof {
            let new_prefix = cv.subrange(0, i as int);
            assert(new_prefix =~= prefix.push(node_view(child)));
            lemma_qcount_children_snoc(prefix, node_view(child));
            lemma_sels_children_snoc(prefix, node_view(child), css_path@, 1);
            assert((1 + prefix.len()) as nat == pos as nat);
            lemma_indexed_children_snoc(prefix, node_view(child), start_kids);
            lemma_children_view_snoc(prev_out, ic);
            assert(prev_out.push(ic) =~= out@);
            assert(mid_next == start_kids + qcount_children(prefix)) by {
                lemma_sels_len(prefix, css_path@, 1);
            }
            assert(children_view(out@) =~= indexed_children(new_prefix, start_kids));
            lemma_numbered_concat(
                sels_children(prefix, css_path@, 1),
                sels_node(node_view(child), child_path(css_path@, node_view(child).tag_name, pos as nat)),
                start_kids,
            );
            assert((start_kids + sels_children(prefix, css_path@, 1).len()) as nat == mid_next)
                by {
                lemma_sels_len(prefix, css_path@, 1);
            }
            assert(map.entry_views() =~= base + numbered(head_sels, start0) + numbered(
                sels_children(new_prefix, css_path@, 1),
                start_kids,
            ));
            assert(suffix.drop_first() =~= cv.subrange(i as int, cv.len() as int));
        }
    }
    proof {
        assert(children_view(orig).subrange(0, total as int) =~= children_view(orig));
    }
    let r = ElementNode {
        tag_name,
        attributes,
        text_content,
        children: out,
        index,
        is_visible,
        is_interactive,
        bounding_box,
    };
    proof {
        assert(sels_node(node@, css_path@) =~= head_sels + sels_children(
            children_view(orig),
            css_path@,
            1,
        ));
        lemma_numbered_concat(head_sels, sels_children(children_view(orig), css_path@, 1), start0);
        assert(map.entry_views() =~= base + numbered(sels_node(node@, css_path@), start0));
        assert(r@ =~~= indexed(node@, start0));
    }
    r
}

/// A child sequence registers exactly as many selectors as it has
/// index-earning nodes.
proof fn lemma_sels_len(s: Seq<NodeView>, parent: Seq<char>, j: nat)
    ensures
        sels_children(s, parent, j).len() == qcount_children(s),
    decreases s,
{
    if s.len() > 0 {
        lemma_sels_node_len(s[0], child_path(parent, s[0].tag_name, j));
        lemma_sels_len(s.drop_first(), parent, (j + 1) as nat);
    }
}

/// A subtree registers exactly as many selectors as it has index-earning
/// nodes.
proof fn lemma_sels_node_len(v: NodeView, path: Seq<char>)
    ensures
        sels_node(v, path).len() == qcount(v),
    decreases v,
{
    lemma_sels_len(v.children, path, 1);
}

proof fn lemma_count_children_split(s: Seq<NodeView>, i: int)
    requires
        0 <= i <= s.len(),
    ensures
        count_children(s) == count_children(s.subrange(0, i)) + count_children(
            s.subrange(i, s.len() as int),
        ),
    decreases i,
{
    if i == 0 {
        assert(s.subrange(0, 0) =~= Seq::<NodeView>::empty());
        assert(s.subrange(0, s.len() as int) =~= s);
    } else {
        lemma_count_children_split(s.subrange(1, s.len() as int), i - 1);
        let t = s.subrange(1, s.len() as int);
        assert(s.drop_first() =~= t);
        assert(t.subrange(0, i - 1) =~= s.subrange(0, i).drop_first());
        assert(t.subrange(i - 1, t.len() as int) =~= s.subrange(i, s.len() as int));
        assert(s.subrange(0, i)[0] == s[0]);
        assert(count_children(s.subrange(0, i)) == count_nodes(s[0]) + count_children(
            s.subrange(0, i).drop_first(),
        ));
    }
}

/// The number of nodes in one subtree, recursion depth first.
fn count_node(node: &ElementNode) -> (r: usize)
    requires
        count_nodes(node@) <= usize::MAX,
    ensures
        r as nat == count_nodes(node@),
    decreases node,
{
    let ghost cv = children_view(node.children@);
    proof {
        lemma_children_view(node.children@);
        assert(node@.children == cv);
        assert(cv.subrange(0, 0) =~= Seq::<NodeView>::empty());
    }
    let mut total: usize = 1;
    let n = node.children.len();
    let mut i: usize = 0;
    while i < n
        invariant
            0 <= i <= n,
            n == node.children.len(),
            n == cv.len(),
            cv == children_view(node.children@),
            forall|j: int| 0 <= j < cv.len() ==> cv[j] == node_view(node.children@[j]),
            count_nodes(node@) <= usize::MAX,
            1 + count_children(cv) == count_nodes(node@),
            total as nat == 1 + count_children(cv.subrange(0, i as int)),
        decreases n - i,
    {
        proof {
            lemma_count_children_split(cv, i as int);
            let suffix = cv.subrange(i as int, cv.len() as int);
            assert(suffix[0] == cv[i as int]);
            assert(suffix.drop_first() =~= cv.subrange(i + 1, cv.len() as int));
            assert(count_children(suffix) == count_nodes(cv[i as int]) + count_children(
                cv.subrange(i + 1, cv.len() as int),
            ));
            assert(decreases_to!(*node => node.children));
            vstd::std_specs::vec::axiom_vec_index_decreases(node.children, i as int);
        }
        let c = count_node(&node.children[i]);
        total = total + c;
        i = i + 1;
        proof {
            lemma_count_children_split(cv.subrange(0, i as int), i - 1);
            assert(cv.subrange(0, i as int).subrange(0, i - 1) =~= cv.subrange(0, i - 1));
            assert(cv.subrange(0, i as int).subrange(i - 1, i as int) =~= seq![cv[i - 1]]);
            assert(count_children(seq![cv[i - 1]]) == count_nodes(cv[i - 1]) + count_children(
                seq![cv[i - 1]].drop_first(),
            ));
            assert(seq![cv[i - 1]].drop_first() =~= Seq::<NodeView>::empty());
        }
    }
    proof {
        assert(cv.subrange(0, n as int) =~= cv);
    }
    total
}

/// The first node carrying `target` as its index, in depth-first pre-order.
pub open spec fn spec_find_node(v: NodeView, target: usize) -> Option<NodeView>
    decreases v,
{
    if v.index == Some(target) {
        Some(v)
    } else {
        spec_find_children(v.children, target)
    }
}

/// The first node carrying `target` under a child sequence.
pub open spec fn spec_find_children(s: Seq<NodeView>, target: usize) -> Option<NodeView>
    decreases s,
{
    if s.len() == 0 {
        None
    } else {
        match spec_find_node(s[0], target) {
            Some(f) => Some(f),
            None => spec_find_children(s.drop_first(), target),
        }
    }
}

proof fn lemma_find_children_at(s: Seq<NodeView>, target: usize, i: int, f: NodeView)
    requires
        0 <= i < s.len(),
        forall|j: int| 0 <= j < i ==> spec_find_node(#[trigger] s[j], target) is None,
        spec_find_node(s[i], target) == Some(f),
    ensures
        spec_find_children(s, target) == Some(f),
    decreases i,
{
    if i > 0 {
        lemma_find_children_at(s.drop_first(), target, i - 1, f);
    }
}

proof fn lemma_find_children_none(s: Seq<NodeView>, target: usize)
    requires
        forall|j: int| 0 <= j < s.len() ==> spec_find_node(#[trigger] s[j], target) is None,
    ensures
        spec_find_children(s, target) is None,
    decreases s.len(),
{
    if s.len() > 0 {
        lemma_find_children_none(s.drop_first(), target);
    }
}

/// The first node carrying `target` as its index, depth first, parent
/// before children.
fn find_in<'a>(node: &'a ElementNode, target: usize) -> (r: Option<&'a ElementNode>)
    ensures
        match r {
            Some(f) => spec_find_node(node@, target) == Some(f@),
            None => spec_find_node(node@, target) is None,
        },
    decreases node,
{
    let hit = match node.index {
        Some(i) => i == target,
        None => false,
    };
    if hit {
        return Some(node);
    }
    let ghost cv = children_view(node.children@);
    proof {
        lemma_children_view(node.children@);
        assert(node@.children == cv);
    }
    let n = node.children.len();
    let mut i: usize = 0;
    while i < n
        invariant
            0 <= i <= n,
            n == node.children.len(),
            n == cv.len(),
            cv == children_view(node.children@),
            node.index != Some(target),
            forall|j: int| 0 <= j < cv.len() ==> cv[j] == node_view(node.children@[j]),
            forall|j: int| 0 <= j < i ==> spec_find_node(#[trigger] cv[j], target) is None,
        decreases n - i,
    {
        proof {
            assert(decreases_to!(*node => node.children));
            vstd::std_specs::vec::axiom_vec_index_decreases(node.children, i as int);
        }
        match find_in(&node.children[i], target) {
            Some(f) => {
                proof {
                    lemma_find_children_at(cv, target, i as int, f@);
                    assert(node@.index != Some(target));
                    assert(spec_find_node(node@, target) == spec_find_children(
                        node@.children,
                        target,
                    ));
                }
                return Some(f);
            },
            None => {},
        }
        i = i + 1;
    }
    proof {
        lemma_find_children_none(cv, target);
    }
    None
}

/// One page snapshot: the extracted element tree and the selector registry
/// built from it. The two are rebuilt together, never patched separately.
pub struct DomTree {
    /// Root element of the extracted tree.
    pub root: ElementNode,
    /// Registry mapping assigned indices to selectors.
    pub selector_map: SelectorMap,
}

impl DomTree {
    /// A tree around `root` with an empty registry; indexing has not run
    /// yet.
    pub fn new(root: ElementNode) -> (r: DomTree)
        ensures
            r.root == root,
            r.selector_map.wf(),
            r.selector_map.entries().len() == 0,
            r.selector_map.next_index == 0,
    {
        DomTree { root, selector_map: SelectorMap::new() }
    }

    /// Rebuild the registry wholesale from the tree: clear it, classify
    /// every node, and register each interactive visible node in depth-first
    /// pre-order, starting at index 0, with `body` as the root of every
    /// path-based locator.
    pub fn build_selector_map(&mut self)
        requires
            qcount(old(self).root@) <= usize::MAX,
        ensures
            final(self).selector_map.wf(),
            final(self).root@ == indexed(old(self).root@, 0),
            final(self).selector_map.next_index == qcount(old(self).root@),
            final(self).selector_map.entry_views() == numbered(
                sels_node(old(self).root@, "body"@),
                0,
            ),
    {
        self.selector_map.clear();
        let mut root = ElementNode::new("");
        core::mem::swap(&mut self.root, &mut root);
        let done = index_node(root, "body", &mut self.selector_map);
        self.root = done;
        proof {
            assert(self.selector_map.entry_views() =~= numbered(
                sels_node(old(self).root@, "body"@),
                0,
            ));
        }
    }

    /// Simplify the tree, then rebuild the registry — never a partial
    /// patch.
    pub fn simplify(&mut self)
        requires
            qcount(simplified(old(self).root@)) <= usize::MAX,
        ensures
            final(self).selector_map.wf(),
            final(self).root@ == indexed(simplified(old(self).root@), 0),
            final(self).selector_map.next_index == qcount(simplified(old(self).root@)),
            final(self).selector_map.entry_views() == numbered(
                sels_node(simplified(old(self).root@), "body"@),
                0,
            ),
    {
        self.root.simplify();
        self.build_selector_map();
    }

    /// The selector registered under `index`, if any.
    pub fn get_selector(&self, index: usize) -> (r: Option<&ElementSelector>)
        requires
            self.selector_map.wf(),
        ensures
            match r {
                Some(v) => crate::selector_map::spec_lookup(self.selector_map.entries(), index)
                    == Some(*v),
                None => crate::selector_map::spec_lookup(
                    self.selector_map.entries(),
                    index,
                ) is None,
            },
    {
        self.selector_map.get(index)
    }

    /// All assigned indices, in registration order.
    pub fn interactive_indices(&self) -> (r: Vec<usize>)
        ensures
            r@.len() == self.selector_map.entries().len(),
            forall|i: int|
                0 <= i < r@.len() ==> #[trigger] r@[i] == self.selector_map.entries()[i].0,
    {
        self.selector_map.indices()
    }

    /// The total number of nodes in the tree, whatever their flags.
    pub fn count_elements(&self) -> (r: usize)
        requires
            count_nodes(self.root@) <= usize::MAX,
        ensures
            r as nat == count_nodes(self.root@),
    {
        count_node(&self.root)
    }

    /// The number of registered interactive elements.
    pub fn count_interactive(&self) -> (r: usize)
        ensures
            r == self.selector_map.entries().len(),
    {
        self.selector_map.len()
    }

    /// The first node carrying `index`, in depth-first pre-order.
    pub fn find_node_by_index(&self, index: usize) -> (r: Option<&ElementNode>)
        ensures
            match r {
                Some(f) => spec_find_node(self.root@, index) == Some(f@),
                None => spec_find_node(self.root@, index) is None,
            },
    {
        find_in(&self.root, index)
    }
}

/// Indexing changes flags and indices, never the shape: the node count is
/// unchanged.
pub proof fn lemma_count_nodes_indexed(v: NodeView, start: nat)
    ensures
        count_nodes(indexed(v, start)) == count_nodes(v),
    decreases v,
{
    lemma_count_children_indexed(v.children, start + if qualifies(v) {
        1nat
    } else {
        0nat
    });
}

proof fn lemma_count_children_indexed(s: Seq<NodeView>, start: nat)
    ensures
        count_children(indexed_children(s, start)) == count_children(s),
    decreases s,
{
    if s.len() > 0 {
        lemma_count_nodes_indexed(s[0], start);
        lemma_count_children_indexed(s.drop_first(), start + qcount(s[0]));
        let head = indexed(s[0], start);
        let tail = indexed_children(s.drop_first(), start + qcount(s[0]));
        assert((seq![head] + tail)[0] == head);
        assert((seq![head] + tail).drop_first() =~= tail);
    }
}

/// The assigned indices of the tree, in depth-first pre-order.
pub open spec fn indices_preorder(v: NodeView) -> Seq<usize>
    decreases v,
{
    (match v.index {
        Some(i) => seq![i],
        None => Seq::empty(),
    }) + indices_preorder_children(v.children)
}

/// The assigned indices under a child sequence, in pre-order.
pub open spec fn indices_preorder_children(s: Seq<NodeView>) -> Seq<usize>
    decreases s,
{
    if s.len() == 0 {
        Seq::empty()
    } else {
        indices_preorder(s[0]) + indices_preorder_children(s.drop_first())
    }
}

/// Indices are assigned in strict document order: after indexing from
/// `start`, the k-th interactive visible node in pre-order carries index
/// `start + k`.
pub proof fn lemma_indices_in_document_order(v: NodeView, start: nat)
    requires
        start + qcount(v) <= usize::MAX,
    ensures
        indices_preorder(indexed(v, start)) == Seq::new(
            qcount(v),
            |k: int| (start + k) as usize,
        ),
    decreases v,
{
    let kids_start = start + if qualifies(v) {
        1nat
    } else {
        0nat
    };
    lemma_indices_children_in_order(v.children, kids_start);
    assert(indices_preorder(indexed(v, start)) =~= Seq::new(
        qcount(v),
        |k: int| (start + k) as usize,
    ));
}

proof fn lemma_indices_children_in_order(s: Seq<NodeView>, start: nat)
    requires
        start + qcount_children(s) <= usize::MAX,
    ensures
        indices_preorder_children(indexed_children(s, start)) == Seq::new(
            qcount_children(s),
            |k: int| (start + k) as usize,
        ),
    decreases s,
{
    if s.len() == 0 {
        assert(indices_preorder_children(indexed_children(s, start)) =~= Seq::new(
            qcount_children(s),
            |k: int| (start + k) as usize,
        ));
    } else {
        lemma_indices_in_document_order(s[0], start);
        lemma_indices_children_in_order(s.drop_first(), start + qcount(s[0]));
        let head = indexed(s[0], start);
        let tail = indexed_children(s.drop_first(), start + qcount(s[0]));
        assert((seq![head] + tail)[0] == head);
        assert((seq![head] + tail).drop_first() =~= tail);
        assert(indices_preorder_children(indexed_children(s, start)) =~= Seq::new(
            qcount_children(s),
            |k: int| (start + k) as usize,
        ));
    }
}

/// Every node of the tree carries an index exactly when its own flags say
/// interactive and visible.
pub open spec fn index_iff_flags(v: NodeView) -> bool
    decreases v,
{
    &&& (v.index is Some <==> (v.is_interactive && v.is_visible))
    &&& forall|i: int| 0 <= i < v.children.len() ==> index_iff_flags(#[trigger] v.children[i])
}

/// After the indexing pass, an index is present on a node exactly when
/// that node is classified interactive and is visible — on every node of
/// the tree.
pub proof fn lemma_indexed_flags_consistent(v: NodeView, start: nat)
    ensures
        index_iff_flags(indexed(v, start)),
    decreases v,
{
    let kids_start = start + if qualifies(v) {
        1nat
    } else {
        0nat
    };
    lemma_indexed_children_flags_consistent(v.children, kids_start);
    let w = indexed(v, start);
    assert forall|i: int| 0 <= i < w.children.len() implies index_iff_flags(
        #[trigger] w.children[i],
    ) by {
        assert(w.children[i] == indexed_children(v.children, kids_start)[i]);
    }
}

proof fn lemma_indexed_children_flags_consistent(s: Seq<NodeView>, start: nat)
    ensures
        forall|i: int|
            0 <= i < indexed_children(s, start).len() ==> index_iff_flags(
                #[trigger] indexed_children(s, start)[i],
            ),
    decreases s,
{
    if s.len() > 0 {
        lemma_indexed_flags_consistent(s[0], start);
        lemma_indexed_children_flags_consistent(s.drop_first(), start + qcount(s[0]));
        let head = indexed(s[0], start);
        let tail = indexed_children(s.drop_first(), start + qcount(s[0]));
        assert forall|i: int| 0 <= i < indexed_children(s, start).len() implies index_iff_flags(
            #[trigger] indexed_children(s, start)[i],
        ) by {
            if i == 0 {
                assert(indexed_children(s, start)[0] == head);
            } else {
                assert(indexed_children(s, start)[i] == tail[i - 1]);
            }
        }
    }
}

/// The tags of the interactive visible nodes, in depth-first pre-order.
pub open spec fn qtags(v: NodeView) -> Seq<Seq<char>>
    decreases v,
{
    (if qualifies(v) {
        seq![v.tag_name]
    } else {
        Seq::empty()
    }) + qtags_children(v.children)
}

/// The tags of the interactive visible nodes under a child sequence.
pub open spec fn qtags_children(s: Seq<NodeView>) -> Seq<Seq<char>>
    decreases s,
{
    if s.len() == 0 {
        Seq::empty()
    } else {
        qtags(s[0]) + qtags_children(s.drop_first())
    }
}

/// The registered selectors line up with the interactive visible nodes:
/// the k-th registered selector carries the tag of the k-th such node in
/// pre-order.
pub proof fn lemma_selector_tags_align(v: NodeView, path: Seq<char>)
    ensures
        sels_node(v, path).len() == qcount(v),
        qtags(v).len() == qcount(v),
        forall|k: int|
            0 <= k < qcount(v) ==> (#[trigger] sels_node(v, path)[k]).tag_name == qtags(v)[k],
    decreases v,
{
    lemma_tags_align_children(v.children, path, 1);
    let head_sels = if qualifies(v) {
        seq![selector_for(v, path)]
    } else {
        Seq::<SelectorView>::empty()
    };
    let head_tags = if qualifies(v) {
        seq![v.tag_name]
    } else {
        Seq::<Seq<char>>::empty()
    };
    assert forall|k: int| 0 <= k < qcount(v) implies (#[trigger] sels_node(v, path)[k]).tag_name
        == qtags(v)[k] by {
        if qualifies(v) && k == 0 {
            assert(sels_node(v, path)[0] == selector_for(v, path));
            assert(qtags(v)[0] == v.tag_name);
        } else {
            let off = head_sels.len();
            assert(sels_node(v, path)[k] == sels_children(v.children, path, 1)[k - off]);
            assert(qtags(v)[k] == qtags_children(v.children)[k - off]);
        }
    }
}

proof fn lemma_tags_align_children(s: Seq<NodeView>, parent: Seq<char>, j: nat)
    ensures
        sels_children(s, parent, j).len() == qcount_children(s),
        qtags_children(s).len() == qcount_children(s),
        forall|k: int|
            0 <= k < qcount_children(s) ==> (#[trigger] sels_children(s, parent, j)[k]).tag_name
                == qtags_children(s)[k],
    decreases s,
{
    if s.len() > 0 {
        lemma_selector_tags_align(s[0], child_path(parent, s[0].tag_name, j));
        lemma_tags_align_children(s.drop_first(), parent, (j + 1) as nat);
        let head = sels_node(s[0], child_path(parent, s[0].tag_name, j));
        assert forall|k: int|
            0 <= k < qcount_children(s) implies (#[trigger] sels_children(s, parent, j)[
        k]).tag_name == qtags_children(s)[k] by {
            if k < head.len() {
                assert(sels_children(s, parent, j)[k] == head[k]);
                assert(qtags_children(s)[k] == qtags(s[0])[k]);
            } else {
                assert(sels_children(s, parent, j)[k] == sels_children(
                    s.drop_first(),
                    parent,
                    (j + 1) as nat,
                )[k - head.len()]);
                assert(qtags_children(s)[k] == qtags_children(s.drop_first())[k - head.len()]);
            }
        }
    }
}

/// After a rebuild, every assigned index resolves through the registry to a
/// selector whose tag equals the tag of the node that earned the index: for
/// each k below the number of interactive visible nodes, the registry
/// entry under key k holds the k-th pre-order selector, whose tag is the
/// k-th pre-order qualifying tag.
pub proof fn lemma_index_resolves(m: SelectorMap, v: NodeView, path: Seq<char>, k: int)
    requires
        m.wf(),
        m.entry_views() == numbered(sels_node(v, path), 0),
        0 <= k < qcount(v),
        qcount(v) <= usize::MAX,
    ensures
        crate::selector_map::spec_lookup(m.entries(), k as usize) matches Some(sel)
            && sel@.tag_name == qtags(v)[k],
{
    lemma_selector_tags_align(v, path);
    let sels = sels_node(v, path);
    assert(m.entry_views().len() == sels.len());
    assert(m.entries().len() == m.entry_views().len());
    assert forall|j: int| 0 <= j < m.entries().len() implies (#[trigger] m.entries()[j]).0 == j
        && m.entries()[j].1@ == sels[j] by {
        assert(m.entry_views()[j] == (m.entries()[j].0, m.entries()[j].1@));
        assert(m.entry_views()[j] == ((0 + j) as usize, sels[j]));
    }
    assert forall|j: int| 0 <= j < k implies m.entries()[j].0 != k as usize by {
        assert(m.entries()[j].0 == j);
    }
    assert(m.entries()[k].0 == k as usize);
    crate::selector_map::lemma_lookup_at(m.entries(), k as usize, k);
    assert(crate::selector_map::spec_lookup(m.entries(), k as usize) == Some(m.entries()[k].1));
    assert(m.entries()[k].1@.tag_name == qtags(v)[k]);
}

} // verus!
