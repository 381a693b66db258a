//! The selector registry: an insertion-ordered map from a monotonically
//! increasing integer index to the locator record of one element. Indices
//! start at 0 on a fresh registry, never decrease, and are never reused
//! within one registry lifetime.

use vstd::prelude::*;
use vstd::string::*;

use crate::strutil::str_eq;

verus! {

/// Everything needed to re-find one element in the live page: a CSS
/// selector (always present), an optional XPath, the tag name, and optional
/// id and text preview.
#[derive(Debug, Clone, PartialEq)]
pub struct ElementSelector {
    /// CSS selector for the element.
    pub css_selector: String,
    /// XPath locator, as an alternative to CSS.
    pub xpath: Option<String>,
    /// The element's tag name.
    pub tag_name: String,
    /// The element's `id` attribute, if any.
    pub id: Option<String>,
    /// Truncated text preview, if any.
    pub text: Option<String>,
}

/// Ghost mirror of `ElementSelector`, with every string as its character
/// sequence.
#[verifier::ext_equal]
pub ghost struct SelectorView {
    pub css_selector: Seq<char>,
    pub xpath: Option<Seq<char>>,
    pub tag_name: Seq<char>,
    pub id: Option<Seq<char>>,
    pub text: Option<Seq<char>>,
}

impl View for ElementSelector {
    type V = SelectorView;

    open spec fn view(&self) -> SelectorView {
        SelectorView {
            css_selector: self.css_selector@,
            xpath: match self.xpath {
                Some(x) => Some(x@),
                None => None,
            },
            tag_name: self.tag_name@,
            id: match self.id {
                Some(i) => Some(i@),
                None => None,
            },
            text: match self.text {
                Some(t) => Some(t@),
                None => None,
            },
        }
    }
}

impl ElementSelector {
    /// A selector with the given CSS locator and tag name and nothing else.
    pub fn new(css_selector: &str, tag_name: &str) -> (r: ElementSelector)
        ensures
            r@ == (SelectorView {
                css_selector: css_selector@,
                xpath: None,
                tag_name: tag_name@,
                id: None,
                text: None,
            }),
    {
        ElementSelector {
            css_selector: css_selector.to_owned(),
            xpath: None,
            tag_name: tag_name.to_owned(),
            id: None,
            text: None,
        }
    }

    /// Set the XPath locator.
    pub fn with_xpath(self, xpath: &str) -> (r: ElementSelector)
        ensures
            r@ == (SelectorView { xpath: Some(xpath@), ..self@ }),
    {
        ElementSelector { xpath: Some(xpath.to_owned()), ..self }
    }

    /// Set the element id.
    pub fn with_id(self, id: &str) -> (r: ElementSelector)
        ensures
            r@ == (SelectorView { id: Some(id@), ..self@ }),
    {
        ElementSelector { id: Some(id.to_owned()), ..self }
    }

    /// Set the text preview.
    pub fn with_text(self, text: &str) -> (r: ElementSelector)
        ensures
            r@ == (SelectorView { text: Some(text@), ..self@ }),
    {
        ElementSelector { text: Some(text.to_owned()), ..self }
    }

    /// The selector to prefer when applying an action: the CSS locator.
    pub fn best_selector(&self) -> (r: &str)
        ensures
            r@ == self@.css_selector,
    {
        self.css_selector.as_str()
    }
}

/// Declares indexmap's ordered map type, so that values of it can stand in
/// fields; what the crate does with it is taken on trust through the
/// wrappers below.
#[verifier::external_type_specification]
#[verifier::external_body]
#[verifier::reject_recursive_types(K)]
#[verifier::reject_recursive_types(V)]
#[verifier::reject_recursive_types(S)]
pub struct ExIndexMap<K, V, S>(indexmap::IndexMap<K, V, S>);

/// The key-value pairs held by the registry's ordered map, in their stored
/// order.
pub uninterp spec fn reg_entries(m: indexmap::IndexMap<usize, ElementSelector>) -> Seq<
    (usize, ElementSelector),
>;

/// Relies on indexmap's `IndexMap::new`: a fresh map holds no entries.
#[verifier::external_body]
fn im_new() -> (m: indexmap::IndexMap<usize, ElementSelector>)
    ensures
        reg_entries(m) == Seq::<(usize, ElementSelector)>::empty(),
{
    indexmap::IndexMap::new()
}

/// Relies on indexmap's `IndexMap::insert`: a key not yet present is
/// inserted last in order; existing entries keep their places.
#[verifier::external_body]
fn im_insert_new(
    m: &mut indexmap::IndexMap<usize, ElementSelector>,
    key: usize,
    value: ElementSelector,
)
    requires
        forall|i: int| 0 <= i < reg_entries(*old(m)).len() ==> reg_entries(*old(m))[i].0 != key,
    ensures
        reg_entries(*final(m)) == reg_entries(*old(m)).push((key, value)),
{
    m.insert(key, value);
}

/// Relies on indexmap's `IndexMap::get`: the value stored under `key`, or
/// `None` when no entry has that key.
#[verifier::external_body]
fn im_get<'a>(m: &'a indexmap::IndexMap<usize, ElementSelector>, key: usize) -> (r: Option<
    &'a ElementSelector,
>)
    ensures
        match r {
            Some(v) => exists|i: int|
                0 <= i < reg_entries(*m).len() && #[trigger] reg_entries(*m)[i] == (key, *v),
            None => forall|i: int|
                0 <= i < reg_entries(*m).len() ==> #[trigger] reg_entries(*m)[i].0 != key,
        },
{
    m.get(&key)
}

/// Relies on indexmap's `IndexMap::contains_key`.
#[verifier::external_body]
fn im_contains(m: &indexmap::IndexMap<usize, ElementSelector>, key: usize) -> (r: bool)
    ensures
        r == (exists|i: int|
            0 <= i < reg_entries(*m).len() && #[trigger] reg_entries(*m)[i].0 == key),
{
    m.contains_key(&key)
}

/// Relies on indexmap's `IndexMap::shift_remove`: the entry for `key` is
/// removed and returned, and the entries that followed it shift down,
/// keeping their relative order; absent `key`, nothing changes.
#[verifier::external_body]
fn im_shift_remove(m: &mut indexmap::IndexMap<usize, ElementSelector>, key: usize) -> (r: Option<
    ElementSelector,
>)
    ensures
        match r {
            Some(v) => exists|i: int|
                {
                    &&& 0 <= i < reg_entries(*old(m)).len()
                    &&& #[trigger] reg_entries(*old(m))[i] == (key, v)
                    &&& reg_entries(*final(m)) == reg_entries(*old(m)).remove(i)
                },
            None => reg_entries(*final(m)) == reg_entries(*old(m)) && forall|i: int|
                0 <= i < reg_entries(*old(m)).len() ==> #[trigger] reg_entries(*old(m))[i].0
                    != key,
        },
{
    m.shift_remove(&key)
}

/// Relies on indexmap's `IndexMap::len`.
#[verifier::external_body]
fn im_len(m: &indexmap::IndexMap<usize, ElementSelector>) -> (r: usize)
    ensures
        r == reg_entries(*m).len(),
{
    m.len()
}

/// Relies on indexmap's `IndexMap::clear`: every entry is removed.
#[verifier::external_body]
fn im_clear(m: &mut indexmap::IndexMap<usize, ElementSelector>)
    ensures
        reg_entries(*final(m)) == Seq::<(usize, ElementSelector)>::empty(),
{
    m.clear()
}

/// Relies on indexmap's `IndexMap::iter`: entries come out in their stored
/// order. Each value is handed out as a clone, equal to the stored one
/// under the view.
#[verifier::external_body]
fn im_entry_list(m: &indexmap::IndexMap<usize, ElementSelector>) -> (r: Vec<
    (usize, ElementSelector),
>)
    ensures
        r@.len() == reg_entries(*m).len(),
        forall|i: int|
            0 <= i < r@.len() ==> (#[trigger] r@[i]).0 == reg_entries(*m)[i].0 && r@[i].1@
                == reg_entries(*m)[i].1@,
{
    m.iter().map(|(k, v)| (*k, v.clone())).collect()
}

/// The first value stored under `index`, if any.
pub open spec fn spec_lookup(entries: Seq<(usize, ElementSelector)>, index: usize) -> Option<
    ElementSelector,
>
    decreases entries.len(),
{
    if entries.len() == 0 {
        None
    } else if entries[0].0 == index {
        Some(entries[0].1)
    } else {
        spec_lookup(entries.drop_first(), index)
    }
}

/// Lookup finds the first entry holding `index`.
pub proof fn lemma_lookup_at(entries: Seq<(usize, ElementSelector)>, index: usize, i: int)
    requires
        0 <= i < entries.len(),
        forall|j: int| 0 <= j < i ==> entries[j].0 != index,
        entries[i].0 == index,
    ensures
        spec_lookup(entries, index) == Some(entries[i].1),
    decreases i,
{
    if i > 0 {
        lemma_lookup_at(entries.drop_first(), index, i - 1);
    }
}

proof fn lemma_lookup_none(entries: Seq<(usize, ElementSelector)>, index: usize)
    requires
        forall|j: int| 0 <= j < entries.len() ==> entries[j].0 != index,
    ensures
        spec_lookup(entries, index) is None,
    decreases entries.len(),
{
    if entries.len() > 0 {
        lemma_lookup_none(entries.drop_first(), index);
    }
}

/// Insertion-ordered registry of element selectors, indexed by a counter
/// that starts at 0 and never runs backwards. The fields are public so the
/// specifications can speak of them; they are maintained by the methods and
/// meant to be read, not written, by callers.
pub struct SelectorMap {
    /// Index-to-selector entries, in registration order.
    pub map: indexmap::IndexMap<usize, ElementSelector>,
    /// The index the next registration will get.
    pub next_index: usize,
}

impl SelectorMap {
    /// The registry's entries, in registration order.
    pub open spec fn entries(&self) -> Seq<(usize, ElementSelector)> {
        reg_entries(self.map)
    }

    /// The registry's entries with selectors as views.
    pub open spec fn entry_views(&self) -> Seq<(usize, SelectorView)> {
        self.entries().map_values(|p: (usize, ElementSelector)| (p.0, p.1@))
    }

    /// Well-formedness: keys strictly increase in registration order, and
    /// all sit below the counter.
    pub open spec fn wf(&self) -> bool {
        &&& forall|i: int, j: int|
            0 <= i < j < self.entries().len() ==> #[trigger] self.entries()[i].0
                < #[trigger] self.entries()[j].0
        &&& forall|i: int|
            0 <= i < self.entries().len() ==> #[trigger] self.entries()[i].0 < self.next_index
    }

    /// A fresh, empty registry; the counter starts at 0.
    pub fn new() -> (r: SelectorMap)
        ensures
            r.wf(),
            r.entries().len() == 0,
            r.next_index == 0,
    {
        SelectorMap { map: im_new(), next_index: 0 }
    }

    /// Register a selector: it is appended under the current counter value,
    /// which is returned, and the counter moves past it. No existing entry
    /// is renumbered.
    pub fn register(&mut self, selector: ElementSelector) -> (idx: usize)
        requires
            old(self).wf(),
            old(self).next_index < usize::MAX,
        ensures
            final(self).wf(),
            idx == old(self).next_index,
            final(self).next_index == old(self).next_index + 1,
            final(self).entries() == old(self).entries().push((idx, selector)),
    {
        let idx = self.next_index;
        proof {
            assert forall|i: int|
                0 <= i < old(self).entries().len() implies old(self).entries()[i].0 != idx by {
                assert(old(self).entries()[i].0 < old(self).next_index);
            }
        }
        im_insert_new(&mut self.map, idx, selector);
        self.next_index = idx + 1;
        proof {
            let oe = old(self).entries();
            let ne = self.entries();
            assert(ne == oe.push((idx, selector)));
            assert forall|i: int, j: int| 0 <= i < j < ne.len() implies (#[trigger] ne[i]).0 < (
            #[trigger] ne[j]).0 by {
                if j < ne.len() - 1 {
                    assert(ne[i] == oe[i]);
                    assert(ne[j] == oe[j]);
                } else {
                    assert(ne[j] == (idx, selector));
                    assert(ne[i] == oe[i]);
                    assert(oe[i].0 < old(self).next_index);
                }
            }
            assert forall|i: int| 0 <= i < ne.len() implies (#[trigger] ne[i]).0
                < self.next_index by {
                if i < oe.len() {
                    assert(ne[i] == oe[i]);
                    assert(oe[i].0 < old(self).next_index);
                } else {
                    assert(ne[i] == (idx, selector));
                }
            }
        }
        idx
    }

    /// The selector registered under `index`, if that index is present.
    pub fn get(&self, index: usize) -> (r: Option<&ElementSelector>)
        requires
            self.wf(),
        ensures
            match r {
                Some(v) => spec_lookup(self.entries(), index) == Some(*v),
                None => spec_lookup(self.entries(), index) is None,
            },
    {
        let r = im_get(&self.map, index);
        proof {
            match r {
                Some(v) => {
                    let i = choose|i: int|
                        0 <= i < self.entries().len() && #[trigger] self.entries()[i] == (
                            index,
                            *v,
                        );
                    assert forall|j: int| 0 <= j < i implies self.entries()[j].0 != index by {
                        assert(self.entries()[j].0 < self.entries()[i].0);
                    }
                    lemma_lookup_at(self.entries(), index, i);
                },
                None => {
                    lemma_lookup_none(self.entries(), index);
                },
            }
        }
        r
    }

    /// Whether `index` is registered.
    pub fn contains(&self, index: usize) -> (r: bool)
        ensures
            r == (spec_lookup(self.entries(), index) is Some),
    {
        let r = im_contains(&self.map, index);
        proof {
            if r {
                let i = choose|i: int|
                    0 <= i < self.entries().len() && #[trigger] self.entries()[i].0 == index;
                lemma_lookup_first(self.entries(), index);
            } else {
                lemma_lookup_none(self.entries(), index);
            }
        }
        r
    }

    /// Remove the entry under `index` and return its selector; later entries
    /// keep their indices (no renumbering) and their relative order. The
    /// counter does not move backwards.
    pub fn remove(&mut self, index: usize) -> (r: Option<ElementSelector>)
        requires
            old(self).wf(),
        ensures
            final(self).wf(),
            final(self).next_index == old(self).next_index,
            match r {
                Some(v) => exists|i: int|
                    {
                        &&& 0 <= i < old(self).entries().len()
                        &&& #[trigger] old(self).entries()[i] == (index, v)
                        &&& final(self).entries() == old(self).entries().remove(i)
                    },
                None => final(self).entries() == old(self).entries() && spec_lookup(
                    old(self).entries(),
                    index,
                ) is None,
            },
    {
        let r = im_shift_remove(&mut self.map, index);
        proof {
            match &r {
                Some(v) => {
                    let i = choose|i: int|
                        {
                            &&& 0 <= i < old(self).entries().len()
                            &&& #[trigger] old(self).entries()[i] == (index, *v)
                            &&& final(self).entries() == old(self).entries().remove(i)
                        };
                    assert forall|p: int, q: int|
                        0 <= p < q < self.entries().len() implies #[trigger] self.entries()[p].0
                        < #[trigger] self.entries()[q].0 by {
                        assert(self.entries()[p] == if p < i {
                            old(self).entries()[p]
                        } else {
                            old(self).entries()[p + 1]
                        });
                        assert(self.entries()[q] == if q < i {
                            old(self).entries()[q]
                        } else {
                            old(self).entries()[q + 1]
                        });
                    }
                    assert forall|p: int| 0 <= p < self.entries().len() implies #[trigger] self
                        .entries()[p].0 < self.next_index by {
                        assert(self.entries()[p] == if p < i {
                            old(self).entries()[p]
                        } else {
                            old(self).entries()[p + 1]
                        });
                    }
                },
                None => {
                    lemma_lookup_none(old(self).entries(), index);
                },
            }
        }
        r
    }

    /// The number of registered entries.
    pub fn len(&self) -> (r: usize)
        ensures
            r == self.entries().len(),
    {
        im_len(&self.map)
    }

    /// Whether the registry holds no entries.
    pub fn is_empty(&self) -> (r: bool)
        ensures
            r == (self.entries().len() == 0),
    {
        self.len() == 0
    }

    /// Remove every entry and reset the counter to 0, as on a fresh
    /// registry.
    pub fn clear(&mut self)
        ensures
            final(self).wf(),
            final(self).entries().len() == 0,
            final(self).next_index == 0,
    {
        im_clear(&mut self.map);
        self.next_index = 0;
    }

    /// All entries in registration order, each selector handed out as an
    /// equal-looking copy.
    pub fn iter(&self) -> (r: Vec<(usize, ElementSelector)>)
        ensures
            r@.len() == self.entries().len(),
            forall|i: int|
                0 <= i < r@.len() ==> (#[trigger] r@[i]).0 == self.entries()[i].0 && r@[i].1@
                    == self.entries()[i].1@,
    {
        im_entry_list(&self.map)
    }

    /// All registered indices, in registration order.
    pub fn indices(&self) -> (r: Vec<usize>)
        ensures
            r@.len() == self.entries().len(),
            forall|i: int| 0 <= i < r@.len() ==> #[trigger] r@[i] == self.entries()[i].0,
    {
        let all = im_entry_list(&self.map);
        let mut out: Vec<usize> = Vec::new();
        let n = all.len();
        let mut i: usize = 0;
        while i < n
            invariant
                0 <= i <= n,
                n == all.len(),
                all@.len() == self.entries().len(),
                forall|j: int|
                    0 <= j < all@.len() ==> (#[trigger] all@[j]).0 == self.entries()[j].0,
                out@.len() == i,
                forall|j: int| 0 <= j < i ==> #[trigger] out@[j] == self.entries()[j].0,
            decreases n - i,
        {
            out.push(all[i].0);
            i = i + 1;
        }
        out
    }

    /// All registered selectors, in registration order, as equal-looking
    /// copies.
    pub fn selectors(&self) -> (r: Vec<ElementSelector>)
        ensures
            r@.len() == self.entries().len(),
            forall|i: int| 0 <= i < r@.len() ==> #[trigger] r@[i]@ == self.entries()[i].1@,
    {
        let mut all = im_entry_list(&self.map);
        let mut out: Vec<ElementSelector> = Vec::new();
        let ghost orig = all@;
        let total = all.len();
        let mut i: usize = 0;
        while i < total
            invariant
                0 <= i <= total,
                total == orig.len(),
                all@ == orig.subrange(i as int, orig.len() as int),
                orig.len() == self.entries().len(),
                forall|j: int|
                    0 <= j < orig.len() ==> #[trigger] orig[j].1@ == self.entries()[j].1@,
                out@.len() == i,
                forall|j: int| 0 <= j < i ==> #[trigger] out@[j]@ == self.entries()[j].1@,
            decreases total - i,
        {
            let entry = all.remove(0);
            proof {
                assert(entry == orig[i as int]);
                assert(all@ =~= orig.subrange(i + 1, orig.len() as int));
            }
            out.push(entry.1);
            i = i + 1;
        }
        out
    }

    /// The index of the first entry whose CSS selector equals
    /// `css_selector`, in registration order.
    pub fn find_by_css_selector(&self, css_selector: &str) -> (r: Option<usize>)
        ensures
            r == spec_find_css(self.entry_views(), css_selector@),
    {
        let all = im_entry_list(&self.map);
        let n = all.len();
        let mut i: usize = 0;
        while i < n
            invariant
                0 <= i <= n,
                n == all@.len(),
                all@.len() == self.entries().len(),
                forall|j: int|
                    0 <= j < all@.len() ==> (#[trigger] all@[j]).0 == self.entries()[j].0
                        && all@[j].1@ == self.entries()[j].1@,
                forall|j: int|
                    0 <= j < i ==> #[trigger] self.entry_views()[j].1.css_selector
                        != css_selector@,
            decreases n - i,
        {
            if str_eq(all[i].1.css_selector.as_str(), css_selector) {
                proof {
                    assert(self.entry_views()[i as int] == (
                        self.entries()[i as int].0,
                        self.entries()[i as int].1@,
                    ));
                    assert(self.entry_views()[i as int].1.css_selector == css_selector@);
                    assert(self.entry_views()[i as int].0 == all@[i as int].0);
                    lemma_find_css_at(self.entry_views(), css_selector@, i as int);
                }
                return Some(all[i].0);
            }
            proof {
                assert(self.entry_views()[i as int] == (
                    self.entries()[i as int].0,
                    self.entries()[i as int].1@,
                ));
                assert(self.entry_views()[i as int].1 == all@[i as int].1@);
            }
            i = i + 1;
        }
        proof {
            lemma_find_css_none(self.entry_views(), css_selector@);
        }
        None
    }

    /// The index of the first entry whose element id equals `id`, in
    /// registration order.
    pub fn find_by_id(&self, id: &str) -> (r: Option<usize>)
        ensures
            r == spec_find_id(self.entry_views(), id@),
    {
        let all = im_entry_list(&self.map);
        let n = all.len();
        let mut i: usize = 0;
        while i < n
            invariant
                0 <= i <= n,
                n == all@.len(),
                all@.len() == self.entries().len(),
                forall|j: int|
                    0 <= j < all@.len() ==> (#[trigger] all@[j]).0 == self.entries()[j].0
                        && all@[j].1@ == self.entries()[j].1@,
                forall|j: int|
                    0 <= j < i ==> #[trigger] self.entry_views()[j].1.id != Some(id@),
            decreases n - i,
        {
            let hit = match &all[i].1.id {
                Some(s) => str_eq(s.as_str(), id),
                None => false,
            };
            if hit {
                proof {
                    assert(self.entry_views()[i as int] == (
                        self.entries()[i as int].0,
                        self.entries()[i as int].1@,
                    ));
                    assert(self.entry_views()[i as int].1.id == Some(id@));
                    assert(self.entry_views()[i as int].0 == all@[i as int].0);
                    lemma_find_id_at(self.entry_views(), id@, i as int);
                }
                return Some(all[i].0);
            }
            proof {
                assert(self.entry_views()[i as int] == (
                    self.entries()[i as int].0,
                    self.entries()[i as int].1@,
                ));
                assert(self.entry_views()[i as int].1 == all@[i as int].1@);
            }
            i = i + 1;
        }
        proof {
            lemma_find_id_none(self.entry_views(), id@);
        }
        None
    }
}

impl Default for SelectorMap {
    /// The same as `SelectorMap::new`: empty, with the counter at 0.
    fn default() -> (r: SelectorMap)
        ensures
            r.wf(),
            r.entries().len() == 0,
            r.next_index == 0,
    {
        SelectorMap::new()
    }
}

/// The index of the first entry whose CSS selector is `css`, if any.
pub open spec fn spec_find_css(entries: Seq<(usize, SelectorView)>, css: Seq<char>) -> Option<
    usize,
>
    decreases entries.len(),
{
    if entries.len() == 0 {
        None
    } else if entries[0].1.css_selector == css {
        Some(entries[0].0)
    } else {
        spec_find_css(entries.drop_first(), css)
    }
}

/// The index of the first entry whose element id is `id`, if any.
pub open spec fn spec_find_id(entries: Seq<(usize, SelectorView)>, id: Seq<char>) -> Option<usize>
    decreases entries.len(),
{
    if entries.len() == 0 {
        None
    } else if entries[0].1.id == Some(id) {
        Some(entries[0].0)
    } else {
        spec_find_id(entries.drop_first(), id)
    }
}

proof fn lemma_find_css_at(entries: Seq<(usize, SelectorView)>, css: Seq<char>, i: int)
    requires
        0 <= i < entries.len(),
        forall|j: int| 0 <= j < i ==> #[trigger] entries[j].1.css_selector != css,
        entries[i].1.css_selector == css,
    ensures
        spec_find_css(entries, css) == Some(entries[i].0),
    decreases i,
{
    if i > 0 {
        lemma_find_css_at(entries.drop_first(), css, i - 1);
    }
}

proof fn lemma_find_css_none(entries: Seq<(usize, SelectorView)>, css: Seq<char>)
    requires
        forall|j: int| 0 <= j < entries.len() ==> #[trigger] entries[j].1.css_selector != css,
    ensures
        spec_find_css(entries, css) is None,
    decreases entries.len(),
{
    if entries.len() > 0 {
        lemma_find_css_none(entries.drop_first(), css);
    }
}

proof fn lemma_find_id_at(entries: Seq<(usize, SelectorView)>, id: Seq<char>, i: int)
    requires
        0 <= i < entries.len(),
        forall|j: int| 0 <= j < i ==> #[trigger] entries[j].1.id != Some(id),
        entries[i].1.id == Some(id),
    ensures
        spec_find_id(entries, id) == Some(entries[i].0),
    decreases i,
{
    if i > 0 {
        lemma_find_id_at(entries.drop_first(), id, i - 1);
    }
}

proof fn lemma_find_id_none(entries: Seq<(usize, SelectorView)>, id: Seq<char>)
    requires
        forall|j: int| 0 <= j < entries.len() ==> #[trigger] entries[j].1.id != Some(id),
    ensures
        spec_find_id(entries, id) is None,
    decreases entries.len(),
{
    if entries.len() > 0 {
        lemma_find_id_none(entries.drop_first(), id);
    }
}

/// With pairwise-distinct keys, the entry holding `index` is the first one,
/// so lookup returns its value.
proof fn lemma_lookup_first(entries: Seq<(usize, ElementSelector)>, index: usize)
    requires
        exists|i: int| 0 <= i < entries.len() && #[trigger] entries[i].0 == index,
    ensures
        spec_lookup(entries, index) is Some,
    decreases entries.len(),
{
    let i = choose|i: int| 0 <= i < entries.len() && #[trigger] entries[i].0 == index;
    if entries[0].0 == index {
    } else {
        assert(0 <= i - 1 < entries.drop_first().len() && entries.drop_first()[i - 1].0 == index);
        lemma_lookup_first(entries.drop_first(), index);
    }
}

} // verus!
