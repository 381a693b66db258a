//! Action dispatch: turning a logical command — targeted by a raw CSS
//! locator or by a snapshot index — into a concrete locator against the
//! current registry, and wrapping what the engine did into the uniform
//! result envelope. Applying the locator to the live page happens outside
//! the library; the decisions on both sides of that call are made here.

use vstd::prelude::*;
use vstd::string::*;

use crate::errors::BrowserError;
use crate::selector_map::{spec_lookup, SelectorMap};
use crate::urls::{normalize_url, spec_normalize_url};

verus! {

/// How the concrete locator was obtained.
#[derive(Debug, Clone, Copy, PartialEq, Eq, Structural)]
pub enum ResolutionMethod {
    /// A raw CSS locator was given.
    Css,
    /// A snapshot index was resolved through the registry.
    Index,
}

/// A concrete locator ready to be applied to the active page, and how it
/// was obtained.
pub struct ResolvedTarget {
    /// How the locator was obtained.
    pub method: ResolutionMethod,
    /// The CSS locator to apply.
    pub css_selector: String,
    /// The index that was resolved, when one was given.
    pub index: Option<usize>,
}

/// What the engine reported after applying an action.
pub enum ActionOutcome {
    /// The action was applied.
    Completed,
    /// The engine failed, with its reason.
    EngineError(String),
}

/// Command-specific payload of a success envelope.
#[derive(Debug)]
pub enum ActionData {
    /// An element was clicked.
    Clicked {
        /// How the element was targeted.
        method: ResolutionMethod,
        /// The concrete locator applied.
        selector: String,
        /// The resolved index, when targeting was by index.
        index: Option<usize>,
    },
    /// Text was typed into an element.
    Typed {
        /// How the element was targeted.
        method: ResolutionMethod,
        /// The concrete locator applied.
        selector: String,
        /// The resolved index, when targeting was by index.
        index: Option<usize>,
        /// The number of bytes typed.
        text_length: usize,
    },
    /// The active page navigated.
    Navigated {
        /// The URL as the caller gave it.
        original_url: String,
        /// The URL after normalization.
        normalized_url: String,
        /// Whether the command waited for the navigation to complete.
        waited: bool,
    },
    /// A new tab was opened and navigated.
    OpenedTab {
        /// The URL as the caller gave it.
        original_url: String,
        /// The URL after normalization.
        normalized_url: String,
    },
    /// The page was converted to markdown.
    Markdown {
        /// The combined markdown document.
        markdown: String,
        /// The page title.
        title: String,
        /// The page URL.
        url: String,
        /// The markdown length in bytes.
        length: usize,
    },
}

/// The uniform envelope every command returns: success with optional
/// payload, or an error message.
pub struct ToolResult {
    /// Whether the command succeeded.
    pub success: bool,
    /// Command-specific payload, on success.
    pub data: Option<ActionData>,
    /// The failure message, on failure.
    pub error: Option<String>,
}

impl ToolResult {
    /// A success envelope carrying `data`.
    pub fn success_with(data: ActionData) -> (r: ToolResult)
        ensures
            r.success == true,
            r.data matches Some(d) && d == data,
            r.error is None,
    {
        ToolResult { success: true, data: Some(data), error: None }
    }

    /// A failure envelope carrying `error`.
    pub fn failure(error: String) -> (r: ToolResult)
        ensures
            r.success == false,
            r.data is None,
            r.error matches Some(e) && e == error,
    {
        ToolResult { success: false, data: None, error: Some(error) }
    }
}

/// Resolve an element target given as an optional raw locator and an
/// optional index: both set is ambiguous, neither set is missing, an index
/// must be in the registry, and a raw locator passes through.
pub fn resolve_target(selector: &Option<String>, index: Option<usize>, map: &SelectorMap) -> (r:
    Result<ResolvedTarget, BrowserError>)
    requires
        map.wf(),
    ensures
        (match (selector, index) {
            (Some(_), Some(_)) => r matches Err(BrowserError::AmbiguousTarget),
            (None, None) => r matches Err(BrowserError::MissingTarget),
            (Some(s), None) => r matches Ok(t) && t.method is Css && t.css_selector@ == s@
                && t.index is None,
            (None, Some(i)) => (match spec_lookup(map.entries(), i) {
                Some(sel) => r matches Ok(t) && t.method is Index && t.css_selector@
                    == sel@.css_selector && t.index == Some(i),
                None => r matches Err(BrowserError::UnknownIndex(j)) && j == i,
            }),
        }),
{
    match (selector, index) {
        (Some(_), Some(_)) => Err(BrowserError::AmbiguousTarget),
        (None, None) => Err(BrowserError::MissingTarget),
        (Some(s), None) => Ok(
            ResolvedTarget { method: ResolutionMethod::Css, css_selector: s.clone(), index: None },
        ),
        (None, Some(i)) => match map.get(i) {
            Some(sel) => Ok(
                ResolvedTarget {
                    method: ResolutionMethod::Index,
                    css_selector: sel.css_selector.clone(),
                    index: Some(i),
                },
            ),
            None => Err(BrowserError::UnknownIndex(i)),
        },
    }
}

/// Parameters of the click command: one way of naming the element.
pub struct ClickParams {
    /// The element, by raw locator or by index.
    pub selector: ElementSelector,
}

/// One way of naming an element in a command: a raw CSS locator, or an
/// index from the current snapshot — never both.
pub enum ElementSelector {
    /// Target by raw CSS locator.
    Css {
        /// The CSS locator.
        selector: String,
    },
    /// Target by snapshot index.
    Index {
        /// The index from the current snapshot.
        index: usize,
    },
}

/// The click command: resolve the target, let the engine click it, and
/// report which locator was used.
#[derive(Default)]
pub struct ClickTool;

impl ClickTool {
    /// The command's name.
    pub fn name(&self) -> (r: &str)
        ensures
            r@ == "click"@,
    {
        "click"
    }

    /// Resolve the click target against the current registry.
    pub fn plan(&self, params: &ClickParams, map: &SelectorMap) -> (r: Result<
        ResolvedTarget,
        BrowserError,
    >)
        requires
            map.wf(),
        ensures
            (match params.selector {
                ElementSelector::Css { selector } => r matches Ok(t) && t.method is Css
                    && t.css_selector@ == selector@ && t.index is None,
                ElementSelector::Index { index } => (match spec_lookup(map.entries(), index) {
                    Some(sel) => r matches Ok(t) && t.method is Index && t.css_selector@
                        == sel@.css_selector && t.index == Some(index),
                    None => r matches Err(BrowserError::UnknownIndex(j)) && j == index,
                }),
            }),
    {
        match &params.selector {
            ElementSelector::Css { selector } => Ok(
                ResolvedTarget {
                    method: ResolutionMethod::Css,
                    css_selector: selector.clone(),
                    index: None,
                },
            ),
            ElementSelector::Index { index } => match map.get(*index) {
                Some(sel) => Ok(
                    ResolvedTarget {
                        method: ResolutionMethod::Index,
                        css_selector: sel.css_selector.clone(),
                        index: Some(*index),
                    },
                ),
                None => Err(BrowserError::UnknownIndex(*index)),
            },
        }
    }

    /// Wrap what the engine did into the envelope: success reports the
    /// method and concrete locator; an engine failure becomes
    /// `ActionFailed` for this command.
    pub fn finish(&self, target: ResolvedTarget, outcome: ActionOutcome) -> (r: Result<
        ToolResult,
        BrowserError,
    >)
        ensures
            outcome is Completed ==> ({
                &&& r matches Ok(t)
                &&& t.success
                &&& t.error is None
                &&& t.data matches Some(d)
                &&& d matches ActionData::Clicked { method, selector, index }
                &&& method == target.method
                &&& selector@ == target.css_selector@
                &&& index == target.index
            }),
            outcome matches ActionOutcome::EngineError(reason) ==> ({
                &&& r matches Err(e)
                &&& e matches BrowserError::ActionFailed { command, reason: given }
                &&& command@ == "click"@
                &&& given@ == reason@
            }),
    {
        match outcome {
            ActionOutcome::Completed => Ok(
                ToolResult::success_with(
                    ActionData::Clicked {
                        method: target.method,
                        selector: target.css_selector,
                        index: target.index,
                    },
                ),
            ),
            ActionOutcome::EngineError(reason) => Err(
                BrowserError::ActionFailed { command: String::from_str("click"), reason },
            ),
        }
    }
}

/// Parameters of the input command: the element by locator or index —
/// never both — the text to type, and whether to clear first.
pub struct InputParams {
    /// The element, by raw CSS locator.
    pub selector: Option<String>,
    /// The element, by snapshot index.
    pub index: Option<usize>,
    /// The text to type.
    pub text: String,
    /// Clear the element's existing content first.
    pub clear: bool,
}

/// The input command: resolve the target, let the engine type into it, and
/// report locator and text length.
#[derive(Default)]
pub struct InputTool;

impl InputTool {
    /// The command's name.
    pub fn name(&self) -> (r: &str)
        ensures
            r@ == "input"@,
    {
        "input"
    }

    /// Resolve the input target: both locator and index is ambiguous,
    /// neither is missing, an unknown index is rejected.
    pub fn plan(&self, params: &InputParams, map: &SelectorMap) -> (r: Result<
        ResolvedTarget,
        BrowserError,
    >)
        requires
            map.wf(),
        ensures
            (match (params.selector, params.index) {
                (Some(_), Some(_)) => r matches Err(BrowserError::AmbiguousTarget),
                (None, None) => r matches Err(BrowserError::MissingTarget),
                (Some(s), None) => r matches Ok(t) && t.method is Css && t.css_selector@ == s@
                    && t.index is None,
                (None, Some(i)) => (match spec_lookup(map.entries(), i) {
                    Some(sel) => r matches Ok(t) && t.method is Index && t.css_selector@
                        == sel@.css_selector && t.index == Some(i),
                    None => r matches Err(BrowserError::UnknownIndex(j)) && j == i,
                }),
            }),
    {
        resolve_target(&params.selector, params.index, map)
    }

    /// Wrap what the engine did into the envelope: success reports the
    /// method, the concrete locator, and the number of bytes typed; an
    /// engine failure becomes `ActionFailed` for this command.
    pub fn finish(&self, target: ResolvedTarget, text: &str, outcome: ActionOutcome) -> (r: Result<
        ToolResult,
        BrowserError,
    >)
        ensures
            outcome is Completed ==> ({
                &&& r matches Ok(t)
                &&& t.success
                &&& t.error is None
                &&& t.data matches Some(d)
                &&& d matches ActionData::Typed { method, selector, index, text_length }
                &&& method == target.method
                &&& selector@ == target.css_selector@
                &&& index == target.index
                &&& text_length == vstd::utf8::encode_utf8(text@).len() as usize
            }),
            outcome matches ActionOutcome::EngineError(reason) ==> ({
                &&& r matches Err(e)
                &&& e matches BrowserError::ActionFailed { command, reason: given }
                &&& command@ == "input"@
                &&& given@ == reason@
            }),
    {
        match outcome {
            ActionOutcome::Completed => Ok(
                ToolResult::success_with(
                    ActionData::Typed {
                        method: target.method,
                        selector: target.css_selector,
                        index: target.index,
                        text_length: text.len(),
                    },
                ),
            ),
            ActionOutcome::EngineError(reason) => Err(
                BrowserError::ActionFailed { command: String::from_str("input"), reason },
            ),
        }
    }
}

/// Parameters of the navigate command.
pub struct NavigateParams {
    /// The URL to navigate to, before normalization.
    pub url: String,
    /// Wait for the navigation to complete.
    pub wait_for_load: bool,
}

impl NavigateParams {
    /// Parameters for `url`, waiting for the load by default.
    pub fn new(url: &str) -> (r: NavigateParams)
        ensures
            r.url@ == url@,
            r.wait_for_load == true,
    {
        NavigateParams { url: url.to_owned(), wait_for_load: true }
    }
}

/// The navigate command: normalize the URL, let the engine navigate, and
/// report both forms of the URL.
#[derive(Default)]
pub struct NavigateTool;

impl NavigateTool {
    /// The command's name.
    pub fn name(&self) -> (r: &str)
        ensures
            r@ == "navigate"@,
    {
        "navigate"
    }

    /// The URL the engine will be asked to navigate to.
    pub fn plan(&self, params: &NavigateParams) -> (r: String)
        ensures
            r@ == spec_normalize_url(params.url@),
    {
        normalize_url(params.url.as_str())
    }

    /// Wrap what the engine did into the envelope: success reports the
    /// original and normalized URL and whether the command waited; an
    /// engine failure becomes `ActionFailed` for this command.
    pub fn finish(&self, params: &NavigateParams, normalized: String, outcome: ActionOutcome) -> (r:
        Result<ToolResult, BrowserError>)
        ensures
            outcome is Completed ==> ({
                &&& r matches Ok(t)
                &&& t.success
                &&& t.error is None
                &&& t.data matches Some(d)
                &&& d matches ActionData::Navigated { original_url, normalized_url, waited }
                &&& original_url@ == params.url@
                &&& normalized_url@ == normalized@
                &&& waited == params.wait_for_load
            }),
            outcome matches ActionOutcome::EngineError(reason) ==> ({
                &&& r matches Err(e)
                &&& e matches BrowserError::ActionFailed { command, reason: given }
                &&& command@ == "navigate"@
                &&& given@ == reason@
            }),
    {
        match outcome {
            ActionOutcome::Completed => Ok(
                ToolResult::success_with(
                    ActionData::Navigated {
                        original_url: params.url.clone(),
                        normalized_url: normalized,
                        waited: params.wait_for_load,
                    },
                ),
            ),
            ActionOutcome::EngineError(reason) => Err(
                BrowserError::ActionFailed { command: String::from_str("navigate"), reason },
            ),
        }
    }
}

/// Parameters of the new-tab command.
pub struct NewTabParams {
    /// The URL to open in the new tab, before normalization.
    pub url: String,
}

/// The new-tab command: normalize the URL, let the engine open and
/// activate a tab on it, and report both forms of the URL.
#[derive(Default)]
pub struct NewTabTool;

impl NewTabTool {
    /// The command's name.
    pub fn name(&self) -> (r: &str)
        ensures
            r@ == "new_tab"@,
    {
        "new_tab"
    }

    /// The URL the new tab will be asked to open.
    pub fn plan(&self, params: &NewTabParams) -> (r: String)
        ensures
            r@ == spec_normalize_url(params.url@),
    {
        normalize_url(params.url.as_str())
    }

    /// Wrap what the engine did into the envelope: success reports the
    /// original and normalized URL; an engine failure becomes
    /// `ActionFailed` for this command.
    pub fn finish(&self, params: &NewTabParams, normalized: String, outcome: ActionOutcome) -> (r:
        Result<ToolResult, BrowserError>)
        ensures
            outcome is Completed ==> ({
                &&& r matches Ok(t)
                &&& t.success
                &&& t.error is None
                &&& t.data matches Some(d)
                &&& d matches ActionData::OpenedTab { original_url, normalized_url }
                &&& original_url@ == params.url@
                &&& normalized_url@ == normalized@
            }),
            outcome matches ActionOutcome::EngineError(reason) ==> ({
                &&& r matches Err(e)
                &&& e matches BrowserError::ActionFailed { command, reason: given }
                &&& command@ == "new_tab"@
                &&& given@ == reason@
            }),
    {
        match outcome {
            ActionOutcome::Completed => Ok(
                ToolResult::success_with(
                    ActionData::OpenedTab {
                        original_url: params.url.clone(),
                        normalized_url: normalized,
                    },
                ),
            ),
            ActionOutcome::EngineError(reason) => Err(
                BrowserError::ActionFailed { command: String::from_str("new_tab"), reason },
            ),
        }
    }
}

/// Parameters of the markdown command: it takes none.
pub struct GetMarkdownParams {}

/// The markdown document built from a page's title and converted content:
/// the title becomes a heading when it is nonempty.
pub open spec fn spec_markdown(title: Seq<char>, content: Seq<char>) -> Seq<char> {
    if title.len() > 0 {
        "# "@ + title + "\n\n"@ + content
    } else {
        content
    }
}

/// The markdown command: combine the page's title and converted content
/// into one document.
#[derive(Default)]
pub struct GetMarkdownTool;

impl GetMarkdownTool {
    /// The command's name.
    pub fn name(&self) -> (r: &str)
        ensures
            r@ == "get_markdown"@,
    {
        "get_markdown"
    }

    /// Combine title and content: a nonempty title becomes a heading above
    /// the content; an empty one is dropped.
    pub fn combine(&self, title: &str, content: &str) -> (r: String)
        ensures
            r@ == spec_markdown(title@, content@),
    {
        if title.unicode_len() > 0 {
            let mut m = String::from_str("# ");
            m.append(title);
            m.append("\n\n");
            m.append(content);
            proof {
                assert(m@ =~= spec_markdown(title@, content@));
            }
            m
        } else {
            content.to_owned()
        }
    }

    /// Wrap the conversion into the envelope: success reports the combined
    /// document, title, URL, and the document's length in bytes; an engine
    /// failure becomes `ActionFailed` for this command.
    pub fn finish(&self, markdown: String, title: String, url: String, outcome: ActionOutcome) -> (
        r: Result<ToolResult, BrowserError>)
        ensures
            outcome is Completed ==> ({
                &&& r matches Ok(t)
                &&& t.success
                &&& t.error is None
                &&& t.data matches Some(d)
                &&& d matches ActionData::Markdown { markdown: m, title: given_title, url: given_url, length }
                &&& m@ == markdown@
                &&& given_title@ == title@
                &&& given_url@ == url@
                &&& length == vstd::utf8::encode_utf8(markdown@).len() as usize
            }),
            outcome matches ActionOutcome::EngineError(reason) ==> ({
                &&& r matches Err(e)
                &&& e matches BrowserError::ActionFailed { command, reason: given }
                &&& command@ == "get_markdown"@
                &&& given@ == reason@
            }),
    {
        match outcome {
            ActionOutcome::Completed => {
                let length = markdown.as_str().len();
                Ok(
                    ToolResult::success_with(
                        ActionData::Markdown { markdown, title, url, length },
                    ),
                )
            },
            ActionOutcome::EngineError(reason) => Err(
                BrowserError::ActionFailed { command: String::from_str("get_markdown"), reason },
            ),
        }
    }
}

} // verus!

