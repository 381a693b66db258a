//! The semantic tree node of a page snapshot: tag, attributes, text,
//! children, geometry, and the interactivity/visibility flags that drive
//! index assignment.

use vstd::pervasive::VecAdditionalExecFns;
use vstd::prelude::*;
use vstd::string::*;

use crate::strutil::{
    contains_word, has_word, lower_seq, spec_digits, spec_starts_with, spec_trim, str_eq,
    str_eq_ignore_ascii_case, str_starts_with, trim_str, usize_to_string,
};

verus! {

/// Viewport-coordinate rectangle reported by the renderer for an element.
#[derive(Debug, Clone, Copy, PartialEq)]
pub struct BoundingBox {
    pub x: i32,
    pub y: i32,
    pub width: i32,
    pub height: i32,
}

impl BoundingBox {
    /// A box at `(x, y)` of the given width and height.
    pub fn new(x: i32, y: i32, width: i32, height: i32) -> (r: BoundingBox)
        ensures
            r == (BoundingBox { x, y, width, height }),
    {
        BoundingBox { x, y, width, height }
    }

    /// A box is visible exactly when both dimensions are positive.
    pub fn is_visible(&self) -> (r: bool)
        ensures
            r == (self.width > 0 && self.height > 0),
    {
        self.width > 0 && self.height > 0
    }

    /// The area of the box: width times height.
    pub fn area(&self) -> (r: i64)
        ensures
            r == self.width as int * self.height as int,
    {
        proof {
            assert((self.width as int) * (self.height as int) <= i64::MAX && (self.width as int)
                * (self.height as int) >= i64::MIN) by (nonlinear_arith)
                requires
                    -0x8000_0000 <= self.width as int <= 0x7fff_ffff,
                    -0x8000_0000 <= self.height as int <= 0x7fff_ffff,
            ;
        }
        (self.width as i64) * (self.height as i64)
    }
}

/// The value of the first attribute named `key`, if any.
pub open spec fn spec_get_attr(attrs: Seq<(String, String)>, key: Seq<char>) -> Option<Seq<char>>
    decreases attrs.len(),
{
    if attrs.len() == 0 {
        None
    } else if attrs[0].0@ == key {
        Some(attrs[0].1@)
    } else {
        spec_get_attr(attrs.drop_first(), key)
    }
}

/// Attribute keys are pairwise distinct.
pub open spec fn attrs_wf(attrs: Seq<(String, String)>) -> bool {
    forall|i: int, j: int| 0 <= i < j < attrs.len() ==> attrs[i].0@ != attrs[j].0@
}

proof fn lemma_get_attr_at(attrs: Seq<(String, String)>, key: Seq<char>, i: int)
    requires
        0 <= i < attrs.len(),
        forall|j: int| 0 <= j < i ==> attrs[j].0@ != key,
        attrs[i].0@ == key,
    ensures
        spec_get_attr(attrs, key) == Some(attrs[i].1@),
    decreases i,
{
    if i > 0 {
        lemma_get_attr_at(attrs.drop_first(), key, i - 1);
    }
}

proof fn lemma_get_attr_none(attrs: Seq<(String, String)>, key: Seq<char>)
    requires
        forall|j: int| 0 <= j < attrs.len() ==> attrs[j].0@ != key,
    ensures
        spec_get_attr(attrs, key) is None,
    decreases attrs.len(),
{
    if attrs.len() > 0 {
        lemma_get_attr_none(attrs.drop_first(), key);
    }
}

/// One node of the extracted page tree. The parent exclusively owns its
/// children; `index` is assigned during snapshot indexing and only for nodes
/// that are both interactive and visible at that time.
#[derive(Debug, PartialEq)]
pub struct ElementNode {
    /// Tag name, compared case-insensitively.
    pub tag_name: String,
    /// Attribute pairs; keys are unique in a well-formed node.
    pub attributes: Vec<(String, String)>,
    /// Text content, if any.
    pub text_content: Option<String>,
    /// Child elements in document order.
    pub children: Vec<ElementNode>,
    /// Index assigned during snapshot indexing, for interactive visible nodes.
    pub index: Option<usize>,
    /// Whether the element is visible in the viewport.
    pub is_visible: bool,
    /// Whether the element is classified interactive.
    pub is_interactive: bool,
    /// Renderer-reported geometry, if known.
    pub bounding_box: Option<BoundingBox>,
}

impl ElementNode {
    /// A fresh node with the given tag and nothing else set.
    pub fn new(tag_name: &str) -> (r: ElementNode)
        ensures
            r.tag_name@ == tag_name@,
            r.attributes@ == Seq::<(String, String)>::empty(),
            r.text_content is None,
            r.children@ == Seq::<ElementNode>::empty(),
            r.index is None,
            r.is_visible == false,
            r.is_interactive == false,
            r.bounding_box is None,
    {
        ElementNode {
            tag_name: tag_name.to_owned(),
            attributes: Vec::new(),
            text_content: None,
            children: Vec::new(),
            index: None,
            is_visible: false,
            is_interactive: false,
            bounding_box: None,
        }
    }

    /// Replace the attribute list wholesale.
    pub fn with_attributes(self, attributes: Vec<(String, String)>) -> (r: ElementNode)
        ensures
            r == (ElementNode { attributes, ..self }),
    {
        ElementNode { attributes, ..self }
    }

    /// Set the text content.
    pub fn with_text(self, text: &str) -> (r: ElementNode)
        ensures
            r == (ElementNode { text_content: r.text_content, ..self }),
            r.text_content matches Some(t) && t@ == text@,
    {
        ElementNode { text_content: Some(text.to_owned()), ..self }
    }

    /// Replace the children wholesale.
    pub fn with_children(self, children: Vec<ElementNode>) -> (r: ElementNode)
        ensures
            r == (ElementNode { children, ..self }),
    {
        ElementNode { children, ..self }
    }

    /// Set the assigned index.
    pub fn with_index(self, index: usize) -> (r: ElementNode)
        ensures
            r == (ElementNode { index: Some(index), ..self }),
    {
        ElementNode { index: Some(index), ..self }
    }

    /// Set the visibility flag.
    pub fn with_visibility(self, visible: bool) -> (r: ElementNode)
        ensures
            r == (ElementNode { is_visible: visible, ..self }),
    {
        ElementNode { is_visible: visible, ..self }
    }

    /// Set the interactivity flag.
    pub fn with_interactivity(self, interactive: bool) -> (r: ElementNode)
        ensures
            r == (ElementNode { is_interactive: interactive, ..self }),
    {
        ElementNode { is_interactive: interactive, ..self }
    }

    /// Set the bounding box from its four coordinates.
    pub fn with_bounding_box(self, x: i32, y: i32, width: i32, height: i32) -> (r: ElementNode)
        ensures
            r == (ElementNode {
                bounding_box: Some(BoundingBox { x, y, width, height }),
                ..self
            }),
    {
        ElementNode { bounding_box: Some(BoundingBox { x, y, width, height }), ..self }
    }

    /// Set `key` to `value`: the first attribute with that key is replaced,
    /// or a new pair is appended. Under the map view nothing else changes.
    pub fn add_attribute(&mut self, key: &str, value: &str)
        ensures
            spec_get_attr(final(self).attributes@, key@) == Some(value@),
            forall|k: Seq<char>|
                k != key@ ==> #[trigger] spec_get_attr(final(self).attributes@, k) == spec_get_attr(
                    old(self).attributes@,
                    k,
                ),
            attrs_wf(old(self).attributes@) ==> attrs_wf(final(self).attributes@),
            *final(self) == (ElementNode { attributes: final(self).attributes, ..*old(self) }),
    {
        let ghost orig = self.attributes@;
        let n = self.attributes.len();
        let mut i: usize = 0;
        while i < n
            invariant
                0 <= i <= n,
                n == self.attributes.len(),
                *self == *old(self),
                orig == self.attributes@,
                forall|j: int| 0 <= j < i ==> orig[j].0@ != key@,
            decreases n - i,
        {
            if str_eq(self.attributes[i].0.as_str(), key) {
                let pair = (key.to_owned(), value.to_owned());
                self.attributes.set(i, pair);
                proof {
                    let updated = self.attributes@;
                    assert(updated[i as int].0@ == key@);
                    assert(forall|j: int| 0 <= j < i ==> updated[j] == orig[j]);
                    lemma_get_attr_at(updated, key@, i as int);
                    assert forall|k: Seq<char>| k != key@ implies #[trigger] spec_get_attr(
                        updated,
                        k,
                    ) == spec_get_attr(orig, k) by {
                        lemma_get_attr_update_other(orig, updated, i as int, k);
                    }
                    if attrs_wf(orig) {
                        assert forall|p: int, q: int|
                            0 <= p < q < updated.len() implies updated[p].0@ != updated[q].0@ by {
                            assert(orig[p].0@ != orig[q].0@);
                        }
                    }
                }
                return ;
            }
            i = i + 1;
        }
        self.attributes.push((key.to_owned(), value.to_owned()));
        proof {
            let pushed = self.attributes@;
            assert(forall|j: int| 0 <= j < orig.len() ==> pushed[j] == orig[j]);
            lemma_get_attr_at(pushed, key@, orig.len() as int);
            assert forall|k: Seq<char>| k != key@ implies #[trigger] spec_get_attr(pushed, k)
                == spec_get_attr(orig, k) by {
                lemma_get_attr_push_other(orig, pushed, k);
            }
        }
    }

    /// Append a child element.
    pub fn add_child(&mut self, child: ElementNode)
        ensures
            final(self).children@ == old(self).children@.push(child),
            *final(self) == (ElementNode { children: final(self).children, ..*old(self) }),
    {
        self.children.push(child);
    }

    /// The value of attribute `key`, if present (first match).
    pub fn get_attribute(&self, key: &str) -> (r: Option<&String>)
        ensures
            match r {
                Some(v) => spec_get_attr(self.attributes@, key@) == Some(v@),
                None => spec_get_attr(self.attributes@, key@) is None,
            },
    {
        let n = self.attributes.len();
        let mut i: usize = 0;
        while i < n
            invariant
                0 <= i <= n,
                n == self.attributes.len(),
                forall|j: int| 0 <= j < i ==> self.attributes@[j].0@ != key@,
            decreases n - i,
        {
            if str_eq(self.attributes[i].0.as_str(), key) {
                proof {
                    lemma_get_attr_at(self.attributes@, key@, i as int);
                }
                return Some(&self.attributes[i].1);
            }
            i = i + 1;
        }
        proof {
            lemma_get_attr_none(self.attributes@, key@);
        }
        None
    }

    /// Whether the `class` attribute contains `class_name` as a whole word.
    pub fn has_class(&self, class_name: &str) -> (r: bool)
        ensures
            r == match spec_get_attr(self.attributes@, "class"@) {
                Some(c) => has_word(c, class_name@),
                None => false,
            },
    {
        match self.get_attribute("class") {
            Some(classes) => contains_word(classes.as_str(), class_name),
            None => false,
        }
    }

    /// The element's `id` attribute, if present.
    pub fn id(&self) -> (r: Option<&String>)
        ensures
            match r {
                Some(v) => spec_get_attr(self.attributes@, "id"@) == Some(v@),
                None => spec_get_attr(self.attributes@, "id"@) is None,
            },
    {
        self.get_attribute("id")
    }

    /// Whether the element's tag equals `tag`, ignoring ASCII case.
    pub fn is_tag(&self, tag: &str) -> (r: bool)
        ensures
            r == (lower_seq(self.tag_name@) == lower_seq(tag@)),
    {
        str_eq_ignore_ascii_case(self.tag_name.as_str(), tag)
    }

    /// Classify the element and record the result in `is_interactive`;
    /// nothing else changes.
    pub fn compute_interactivity(&mut self)
        ensures
            *final(self) == (ElementNode {
                is_interactive: final(self).is_interactive,
                ..*old(self)
            }),
            final(self).is_interactive == spec_interactive(old(self)@),
    {
        let tag_hit = self.is_tag("button") || self.is_tag("a") || self.is_tag("input")
            || self.is_tag("select") || self.is_tag("textarea") || self.is_tag("label");
        let n = self.attributes.len();
        let mut event_hit = false;
        let mut i: usize = 0;
        while i < n
            invariant
                0 <= i <= n,
                n == self.attributes.len(),
                *self == *old(self),
                event_hit == exists|j: int|
                    0 <= j < i && spec_starts_with(#[trigger] self.attributes@[j].0@, "on"@),
            decreases n - i,
        {
            if str_starts_with(self.attributes[i].0.as_str(), "on") {
                event_hit = true;
            }
            i = i + 1;
        }
        let role_hit = match self.get_attribute("role") {
            Some(r) => str_eq(r.as_str(), "button") || str_eq(r.as_str(), "link") || str_eq(
                r.as_str(),
                "tab",
            ) || str_eq(r.as_str(), "menuitem"),
            None => false,
        };
        proof {
            lemma_attr_view(self.attributes@, "role"@);
            assert(role_hit == has_interactive_role(old(self)@.attributes));
            if event_hit {
                let j = choose|j: int|
                    0 <= j < n && spec_starts_with(#[trigger] self.attributes@[j].0@, "on"@);
                assert(attrs_view(self.attributes@)[j].0 == self.attributes@[j].0@);
                assert(has_event_attr(old(self)@.attributes));
            } else {
                assert forall|j: int|
                    0 <= j < attrs_view(self.attributes@).len() implies !spec_starts_with(
                    #[trigger] attrs_view(self.attributes@)[j].0,
                    "on"@,
                ) by {
                    assert(attrs_view(self.attributes@)[j].0 == self.attributes@[j].0@);
                }
                assert(!has_event_attr(old(self)@.attributes));
            }
        }
        self.is_interactive = tag_hit || event_hit || role_hit;
    }

    /// Remove excluded (non-content) children at every level of the subtree.
    pub fn simplify(&mut self)
        ensures
            (*final(self))@ == simplified((*old(self))@),
    {
        let mut tmp = ElementNode::new("");
        core::mem::swap(self, &mut tmp);
        let done = simplify_node(tmp);
        *self = done;
    }

    /// A one-line rendering of the element: tag, id, class, assigned index,
    /// and trimmed text.
    pub fn to_simple_string(&self) -> (r: String)
        ensures
            r@ == spec_simple_string(self@),
    {
        let mut s = String::from_str("<");
        s.append(self.tag_name.as_str());
        match self.id() {
            Some(id) => {
                s.append(" id=\"");
                s.append(id.as_str());
                s.append("\"");
            },
            None => {},
        }
        match self.get_attribute("class") {
            Some(c) => {
                s.append(" class=\"");
                s.append(c.as_str());
                s.append("\"");
            },
            None => {},
        }
        match self.index {
            Some(i) => {
                s.append(" data-index=\"");
                let d = usize_to_string(i);
                s.append(d.as_str());
                s.append("\"");
            },
            None => {},
        }
        s.append(">");
        match &self.text_content {
            Some(t) => {
                let tr = trim_str(t.as_str());
                if tr.unicode_len() > 0 {
                    s.append(tr);
                }
            },
            None => {},
        }
        proof {
            lemma_attr_view(self.attributes@, "id"@);
            lemma_attr_view(self.attributes@, "class"@);
            assert(s@ =~= spec_simple_string(self@));
        }
        s
    }
}

/// The one-line rendering of a node: `<tag`, then ` id="…"`, ` class="…"`
/// and ` data-index="…"` where present, then `>`, then the trimmed text if
/// it is nonempty.
pub open spec fn spec_simple_string(v: NodeView) -> Seq<char> {
    let base = "<"@ + v.tag_name;
    let with_id = base + match spec_attr(v.attributes, "id"@) {
        Some(id) => " id=\""@ + id + "\""@,
        None => Seq::empty(),
    };
    let with_class = with_id + match spec_attr(v.attributes, "class"@) {
        Some(c) => " class=\""@ + c + "\""@,
        None => Seq::empty(),
    };
    let with_index = with_class + match v.index {
        Some(i) => " data-index=\""@ + spec_digits(i as nat) + "\""@,
        None => Seq::empty(),
    };
    with_index + ">"@ + match v.text_content {
        Some(t) => if spec_trim(t).len() > 0 {
            spec_trim(t)
        } else {
            Seq::empty()
        },
        None => Seq::empty(),
    }
}

/// Simplification of an owned node, bottom up.
fn simplify_node(node: ElementNode) -> (r: ElementNode)
    ensures
        r@ == simplified(node@),
    decreases node,
{
    let ElementNode {
        tag_name,
        attributes,
        text_content,
        mut children,
        index,
        is_visible,
        is_interactive,
        bounding_box,
    } = node;
    let ghost orig = children@;
    let total = children.len();
    let mut out: Vec<ElementNode> = Vec::new();
    let mut i: usize = 0;
    while children.len() > 0
        invariant
            0 <= i <= total,
            total == orig.len(),
            orig == node.children@,
            children@ == orig.subrange(i as int, orig.len() as int),
            children_view(out@) == simplified_children(children_view(orig.subrange(0, i as int))),
        decreases children.len(),
    {
        let child = children.remove(0);
        proof {
            assert(child == orig[i as int]);
            assert(children@ =~= orig.subrange(i + 1, orig.len() as int));
        }
        let excluded = str_eq(child.tag_name.as_str(), "script") || str_eq(
            child.tag_name.as_str(),
            "style",
        ) || str_eq(child.tag_name.as_str(), "noscript");
        let ghost prev_out = out@;
        if !excluded {
            proof {
                assert(decreases_to!(node => node.children));
                assert(decreases_to!(node.children => child));
            }
            let sc = simplify_node(child);
            out.push(sc);
        }
        proof {
            lemma_children_view_snoc(orig.subrange(0, i as int), orig[i as int]);
            assert(orig.subrange(0, i as int).push(orig[i as int]) =~= orig.subrange(
                0,
                i + 1,
            ));
            lemma_simplified_children_snoc(
                children_view(orig.subrange(0, i as int)),
                node_view(orig[i as int]),
            );
            if !excluded {
                lemma_children_view_snoc(prev_out.subrange(0, prev_out.len() as int), out@[prev_out.len() as int]);
                assert(prev_out.subrange(0, prev_out.len() as int) =~= prev_out);
                assert(prev_out.push(out@[prev_out.len() as int]) =~= out@);
            }
        }
        i = i + 1;
    }
    proof {
        assert(orig.subrange(0, orig.len() as int) =~= orig);
    }
    let r = ElementNode {
        tag_name,
        attributes,
        text_content,
        children: out,
        index,
        is_visible,
        is_interactive,
        bounding_box,
    };
    proof {
        assert(r@ =~~= simplified(node@));
    }
    r
}

/// Appending one node to a sequence appends its mirror to the view.
pub proof fn lemma_children_view_snoc(s: Seq<ElementNode>, x: ElementNode)
    ensures
        children_view(s.push(x)) == children_view(s).push(node_view(x)),
    decreases s.len(),
{
    if s.len() == 0 {
        assert(s.push(x)[0] == x);
        assert(s.push(x).drop_first() =~= s);
        assert(children_view(s.push(x)) =~= children_view(s).push(node_view(x)));
    } else {
        assert(s.push(x)[0] == s[0]);
        assert(s.push(x).drop_first() =~= s.drop_first().push(x));
        lemma_children_view_snoc(s.drop_first(), x);
        assert(children_view(s.push(x)) =~= children_view(s).push(node_view(x)));
    }
}

/// Appending one node extends the simplification of a child sequence by the
/// simplification of that node, or by nothing if its tag is excluded.
pub proof fn lemma_simplified_children_snoc(s: Seq<NodeView>, x: NodeView)
    ensures
        simplified_children(s.push(x)) == if excluded_tag(x.tag_name) {
            simplified_children(s)
        } else {
            simplified_children(s).push(simplified(x))
        },
    decreases s.len(),
{
    if s.len() == 0 {
        assert(s.push(x)[0] == x);
        assert(s.push(x).drop_first() =~= s);
        if !excluded_tag(x.tag_name) {
            assert(seq![simplified(x)] + simplified_children(s) =~= simplified_children(s).push(
                simplified(x),
            ));
        }
    } else {
        assert(s.push(x)[0] == s[0]);
        assert(s.push(x).drop_first() =~= s.drop_first().push(x));
        lemma_simplified_children_snoc(s.drop_first(), x);
        if !excluded_tag(s[0].tag_name) {
            if excluded_tag(x.tag_name) {
            } else {
                assert(seq![simplified(s[0])] + simplified_children(s.drop_first()).push(
                    simplified(x),
                ) =~= (seq![simplified(s[0])] + simplified_children(s.drop_first())).push(
                    simplified(x),
                ));
            }
        }
    }
}

/// Simplification is idempotent.
pub proof fn lemma_simplify_idempotent(v: NodeView)
    ensures
        simplified(simplified(v)) == simplified(v),
    decreases v,
{
    lemma_simplify_children_idempotent(v.children);
    assert(simplified(simplified(v)) =~~= simplified(v));
}

proof fn lemma_simplify_children_idempotent(s: Seq<NodeView>)
    ensures
        simplified_children(simplified_children(s)) == simplified_children(s),
    decreases s,
{
    if s.len() == 0 {
    } else if excluded_tag(s[0].tag_name) {
        lemma_simplify_children_idempotent(s.drop_first());
    } else {
        lemma_simplify_children_idempotent(s.drop_first());
        lemma_simplify_idempotent(s[0]);
        let head = simplified(s[0]);
        let tail = simplified_children(s.drop_first());
        assert((seq![head] + tail)[0] == head);
        assert((seq![head] + tail).drop_first() =~= tail);
        assert(simplified_children(seq![head] + tail) =~= seq![simplified(head)] + simplified_children(tail));
        assert(simplified(head) == head);
    }
}

/// Simplification leaves no excluded-tagged node anywhere in the result.
pub proof fn lemma_simplify_no_excluded(v: NodeView)
    ensures
        no_excluded(simplified(v)),
    decreases v,
{
    lemma_simplify_children_no_excluded(v.children);
    let sv = simplified(v);
    assert forall|i: int| 0 <= i < sv.children.len() implies !excluded_tag(
        #[trigger] sv.children[i].tag_name,
    ) && no_excluded(sv.children[i]) by {}
}

proof fn lemma_simplify_children_no_excluded(s: Seq<NodeView>)
    ensures
        forall|i: int|
            0 <= i < simplified_children(s).len() ==> !excluded_tag(
                #[trigger] simplified_children(s)[i].tag_name,
            ) && no_excluded(simplified_children(s)[i]),
    decreases s,
{
    if s.len() == 0 {
    } else if excluded_tag(s[0].tag_name) {
        lemma_simplify_children_no_excluded(s.drop_first());
        assert forall|i: int| 0 <= i < simplified_children(s).len() implies !excluded_tag(
            #[trigger] simplified_children(s)[i].tag_name,
        ) && no_excluded(simplified_children(s)[i]) by {
            assert(simplified_children(s)[i] == simplified_children(s.drop_first())[i]);
        }
    } else {
        lemma_simplify_children_no_excluded(s.drop_first());
        lemma_simplify_no_excluded(s[0]);
        let head = simplified(s[0]);
        let tail = simplified_children(s.drop_first());
        assert(simplified_children(s) =~= seq![head] + tail);
        assert forall|i: int| 0 <= i < simplified_children(s).len() implies !excluded_tag(
            #[trigger] simplified_children(s)[i].tag_name,
        ) && no_excluded(simplified_children(s)[i]) by {
            if i == 0 {
                assert(simplified_children(s)[0] == head);
                assert(head.tag_name == s[0].tag_name);
            } else {
                assert(simplified_children(s)[i] == tail[i - 1]);
            }
        }
    }
}

/// Ghost mirror of `BoundingBox`, with unbounded integer coordinates.
#[verifier::ext_equal]
pub ghost struct BoxView {
    pub x: int,
    pub y: int,
    pub width: int,
    pub height: int,
}

/// Ghost mirror of `ElementNode`: every string as its character sequence,
/// children as a sequence of mirrors.
#[verifier::ext_equal]
pub ghost struct NodeView {
    pub tag_name: Seq<char>,
    pub attributes: Seq<(Seq<char>, Seq<char>)>,
    pub text_content: Option<Seq<char>>,
    pub children: Seq<NodeView>,
    pub index: Option<usize>,
    pub is_visible: bool,
    pub is_interactive: bool,
    pub bounding_box: Option<BoxView>,
}

/// The attribute pairs as character sequences.
pub open spec fn attrs_view(attrs: Seq<(String, String)>) -> Seq<(Seq<char>, Seq<char>)> {
    attrs.map_values(|p: (String, String)| (p.0@, p.1@))
}

/// The mirror of one node.
pub open spec fn node_view(n: ElementNode) -> NodeView
    decreases n,
{
    NodeView {
        tag_name: n.tag_name@,
        attributes: attrs_view(n.attributes@),
        text_content: match n.text_content {
            Some(t) => Some(t@),
            None => None,
        },
        children: children_view(n.children@),
        index: n.index,
        is_visible: n.is_visible,
        is_interactive: n.is_interactive,
        bounding_box: match n.bounding_box {
            Some(b) => Some(
                BoxView {
                    x: b.x as int,
                    y: b.y as int,
                    width: b.width as int,
                    height: b.height as int,
                },
            ),
            None => None,
        },
    }
}

/// The mirrors of a sequence of nodes.
pub open spec fn children_view(s: Seq<ElementNode>) -> Seq<NodeView>
    decreases s,
{
    if s.len() == 0 {
        Seq::empty()
    } else {
        seq![node_view(s[0])] + children_view(s.drop_first())
    }
}

impl View for ElementNode {
    type V = NodeView;

    open spec fn view(&self) -> NodeView {
        node_view(*self)
    }
}

/// `children_view` maps the sequence elementwise.
pub proof fn lemma_children_view(s: Seq<ElementNode>)
    ensures
        children_view(s).len() == s.len(),
        forall|i: int| 0 <= i < s.len() ==> children_view(s)[i] == node_view(s[i]),
    decreases s.len(),
{
    if s.len() > 0 {
        lemma_children_view(s.drop_first());
    }
}

/// The value of the first view-level attribute named `key`, if any.
pub open spec fn spec_attr(attrs: Seq<(Seq<char>, Seq<char>)>, key: Seq<char>) -> Option<Seq<char>>
    decreases attrs.len(),
{
    if attrs.len() == 0 {
        None
    } else if attrs[0].0 == key {
        Some(attrs[0].1)
    } else {
        spec_attr(attrs.drop_first(), key)
    }
}

/// View-level lookup agrees with lookup on the attribute pairs themselves.
pub proof fn lemma_attr_view(attrs: Seq<(String, String)>, key: Seq<char>)
    ensures
        spec_attr(attrs_view(attrs), key) == spec_get_attr(attrs, key),
    decreases attrs.len(),
{
    if attrs.len() > 0 {
        assert(attrs_view(attrs).drop_first() =~= attrs_view(attrs.drop_first()));
        lemma_attr_view(attrs.drop_first(), key);
    }
}

/// Tags that are interactive by themselves.
pub open spec fn interactive_tag(tag: Seq<char>) -> bool {
    ||| lower_seq(tag) == lower_seq("button"@)
    ||| lower_seq(tag) == lower_seq("a"@)
    ||| lower_seq(tag) == lower_seq("input"@)
    ||| lower_seq(tag) == lower_seq("select"@)
    ||| lower_seq(tag) == lower_seq("textarea"@)
    ||| lower_seq(tag) == lower_seq("label"@)
}

/// Some attribute key begins with the event-handler prefix.
pub open spec fn has_event_attr(attrs: Seq<(Seq<char>, Seq<char>)>) -> bool {
    exists|i: int| 0 <= i < attrs.len() && spec_starts_with(#[trigger] attrs[i].0, "on"@)
}

/// The `role` attribute names an interactive ARIA role.
pub open spec fn has_interactive_role(attrs: Seq<(Seq<char>, Seq<char>)>) -> bool {
    match spec_attr(attrs, "role"@) {
        Some(r) => r == "button"@ || r == "link"@ || r == "tab"@ || r == "menuitem"@,
        None => false,
    }
}

/// The interactivity classification: any one signal suffices — an
/// interactive tag, an event-handler attribute, or an interactive ARIA role.
pub open spec fn spec_interactive(v: NodeView) -> bool {
    interactive_tag(v.tag_name) || has_event_attr(v.attributes) || has_interactive_role(
        v.attributes,
    )
}

/// A node earns an index exactly when it is classified interactive and is
/// visible.
pub open spec fn qualifies(v: NodeView) -> bool {
    spec_interactive(v) && v.is_visible
}

/// Tags whose subtrees carry no page content and are dropped when
/// simplifying.
pub open spec fn excluded_tag(tag: Seq<char>) -> bool {
    tag == "script"@ || tag == "style"@ || tag == "noscript"@
}

/// The simplification pass: excluded children are dropped at every level;
/// nothing else changes.
pub open spec fn simplified(v: NodeView) -> NodeView
    decreases v,
{
    NodeView { children: simplified_children(v.children), ..v }
}

/// Simplification over a child sequence.
pub open spec fn simplified_children(s: Seq<NodeView>) -> Seq<NodeView>
    decreases s,
{
    if s.len() == 0 {
        Seq::empty()
    } else if excluded_tag(s[0].tag_name) {
        simplified_children(s.drop_first())
    } else {
        seq![simplified(s[0])] + simplified_children(s.drop_first())
    }
}

/// No descendant of `v` carries an excluded tag.
pub open spec fn no_excluded(v: NodeView) -> bool
    decreases v,
{
    forall|i: int|
        0 <= i < v.children.len() ==> !excluded_tag(#[trigger] v.children[i].tag_name)
            && no_excluded(v.children[i])
}

/// The total number of nodes in the tree, the root included.
pub open spec fn count_nodes(v: NodeView) -> nat
    decreases v,
{
    1 + count_children(v.children)
}

/// The total number of nodes under a child sequence.
pub open spec fn count_children(s: Seq<NodeView>) -> nat
    decreases s,
{
    if s.len() == 0 {
        0
    } else {
        count_nodes(s[0]) + count_children(s.drop_first())
    }
}

proof fn lemma_get_attr_update_other(
    orig: Seq<(String, String)>,
    updated: Seq<(String, String)>,
    i: int,
    k: Seq<char>,
)
    requires
        orig.len() == updated.len(),
        0 <= i < orig.len(),
        forall|j: int| 0 <= j < orig.len() && j != i ==> orig[j] == updated[j],
        updated[i].0@ == orig[i].0@,
        k != orig[i].0@,
    ensures
        spec_get_attr(updated, k) == spec_get_attr(orig, k),
    decreases i,
{
    if i == 0 {
        assert(orig.drop_first() =~= updated.drop_first());
    } else {
        assert(orig[0] == updated[0]);
        if orig[0].0@ != k {
            lemma_get_attr_update_other(orig.drop_first(), updated.drop_first(), i - 1, k);
        }
    }
}

proof fn lemma_get_attr_push_other(
    orig: Seq<(String, String)>,
    pushed: Seq<(String, String)>,
    k: Seq<char>,
)
    requires
        pushed.len() == orig.len() + 1,
        forall|j: int| 0 <= j < orig.len() ==> orig[j] == pushed[j],
        k != pushed[orig.len() as int].0@,
    ensures
        spec_get_attr(pushed, k) == spec_get_attr(orig, k),
    decreases orig.len(),
{
    if orig.len() == 0 {
        assert(pushed[0].0@ != k);
        assert(pushed.drop_first().len() == 0);
    } else {
        if orig[0].0@ != k {
            lemma_get_attr_push_other(orig.drop_first(), pushed.drop_first(), k);
        }
    }
}

} // verus!
