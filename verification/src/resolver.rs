//! Active-page resolution: given what each open page reported when probed
//! for visibility and focus, pick the page the next action should target.
//! Strongest signal first: a page that is both visible and focused wins;
//! failing that, a visible page; failing that, resolution fails. A page
//! whose probe failed (crashed or detached) is skipped, not a hard failure:
//! headless environments often have no focus signal at all, so visibility
//! alone must remain a usable proxy.

use vstd::prelude::*;

use crate::errors::BrowserError;

verus! {

/// What one open page reported when probed.
pub enum PageProbe {
    /// The probe itself failed; the page is skipped.
    Unresponsive,
    /// The page reported whether its document is visible and has focus.
    Responded {
        /// The document reports itself visible.
        visible: bool,
        /// The document reports input focus.
        focused: bool,
    },
}

/// The page responded and reported both visible and focused.
pub open spec fn probe_visible_focused(p: PageProbe) -> bool {
    match p {
        PageProbe::Responded { visible, focused } => visible && focused,
        PageProbe::Unresponsive => false,
    }
}

/// The page responded and reported visible.
pub open spec fn probe_visible(p: PageProbe) -> bool {
    match p {
        PageProbe::Responded { visible, focused: _ } => visible,
        PageProbe::Unresponsive => false,
    }
}

/// The first position at or after `from` whose probe is visible and
/// focused.
pub open spec fn first_visible_focused(s: Seq<PageProbe>, from: int) -> Option<int>
    decreases s.len() - from,
{
    if from < 0 || from >= s.len() {
        None
    } else if probe_visible_focused(s[from]) {
        Some(from)
    } else {
        first_visible_focused(s, from + 1)
    }
}

/// The first position at or after `from` whose probe is visible.
pub open spec fn first_visible(s: Seq<PageProbe>, from: int) -> Option<int>
    decreases s.len() - from,
{
    if from < 0 || from >= s.len() {
        None
    } else if probe_visible(s[from]) {
        Some(from)
    } else {
        first_visible(s, from + 1)
    }
}

/// The two-pass policy: the first visible-and-focused page, else the first
/// visible page, else none.
pub open spec fn spec_resolve(s: Seq<PageProbe>) -> Option<int> {
    match first_visible_focused(s, 0) {
        Some(i) => Some(i),
        None => first_visible(s, 0),
    }
}

proof fn lemma_first_vf_at(s: Seq<PageProbe>, i: int, from: int)
    requires
        0 <= from <= i < s.len(),
        forall|j: int| from <= j < i ==> !probe_visible_focused(#[trigger] s[j]),
        probe_visible_focused(s[i]),
    ensures
        first_visible_focused(s, from) == Some(i),
    decreases i - from,
{
    if from < i {
        lemma_first_vf_at(s, i, from + 1);
    }
}

proof fn lemma_first_vf_none(s: Seq<PageProbe>, from: int)
    requires
        0 <= from,
        forall|j: int| from <= j < s.len() ==> !probe_visible_focused(#[trigger] s[j]),
    ensures
        first_visible_focused(s, from) is None,
    decreases s.len() - from,
{
    if from < s.len() {
        lemma_first_vf_none(s, from + 1);
    }
}

proof fn lemma_first_vis_at(s: Seq<PageProbe>, i: int, from: int)
    requires
        0 <= from <= i < s.len(),
        forall|j: int| from <= j < i ==> !probe_visible(#[trigger] s[j]),
        probe_visible(s[i]),
    ensures
        first_visible(s, from) == Some(i),
    decreases i - from,
{
    if from < i {
        lemma_first_vis_at(s, i, from + 1);
    }
}

proof fn lemma_first_vis_none(s: Seq<PageProbe>, from: int)
    requires
        0 <= from,
        forall|j: int| from <= j < s.len() ==> !probe_visible(#[trigger] s[j]),
    ensures
        first_visible(s, from) is None,
    decreases s.len() - from,
{
    if from < s.len() {
        lemma_first_vis_none(s, from + 1);
    }
}

/// Picks the page the next action should target.
pub struct ActivePageResolver;

impl ActivePageResolver {
    /// Resolve the active page among `probes`, one report per open page in
    /// the engine's enumeration order: the first page reporting visible and
    /// focused; if none, the first page reporting visible; if none,
    /// `NoActivePage`.
    pub fn resolve(probes: &Vec<PageProbe>) -> (r: Result<usize, BrowserError>)
        ensures
            match r {
                Ok(i) => spec_resolve(probes@) == Some(i as int),
                Err(e) => spec_resolve(probes@) is None && e matches BrowserError::NoActivePage,
            },
    {
        let n = probes.len();
        let mut i: usize = 0;
        while i < n
            invariant
                0 <= i <= n,
                n == probes@.len(),
                forall|j: int| 0 <= j < i ==> !probe_visible_focused(#[trigger] probes@[j]),
            decreases n - i,
        {
            let hit = match probes[i] {
                PageProbe::Responded { visible, focused } => visible && focused,
                PageProbe::Unresponsive => false,
            };
            if hit {
                proof {
                    lemma_first_vf_at(probes@, i as int, 0);
                }
                return Ok(i);
            }
            i = i + 1;
        }
        proof {
            lemma_first_vf_none(probes@, 0);
        }
        let mut k: usize = 0;
        while k < n
            invariant
                0 <= k <= n,
                n == probes@.len(),
                first_visible_focused(probes@, 0) is None,
                forall|j: int| 0 <= j < k ==> !probe_visible(#[trigger] probes@[j]),
            decreases n - k,
        {
            let hit = match probes[k] {
                PageProbe::Responded { visible, focused: _ } => visible,
                PageProbe::Unresponsive => false,
            };
            if hit {
                proof {
                    lemma_first_vis_at(probes@, k as int, 0);
                }
                return Ok(k);
            }
            k = k + 1;
        }
        proof {
            lemma_first_vis_none(probes@, 0);
        }
        Err(BrowserError::NoActivePage)
    }
}

} // verus!
