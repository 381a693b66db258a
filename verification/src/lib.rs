//! Browser automation core: a DOM-snapshot model with indexed interactive
//! elements, a selector registry, active-page resolution, and action dispatch.
//!
//! The engine-facing work (launching a browser, evaluating scripts in a page)
//! lives outside this crate; everything here operates on plain values handed
//! in from that boundary, and its behaviour is stated in contracts.

pub mod config;
pub mod dispatch;
pub mod element;
pub mod errors;
pub mod resolver;
pub mod selector_map;
pub mod strutil;
pub mod tree;
pub mod urls;

pub use config::{ConnectionOptions, LaunchOptions};
pub use dispatch::{
    ActionData, ActionOutcome, ClickParams, ClickTool, GetMarkdownParams, GetMarkdownTool,
    InputParams, InputTool, NavigateParams, NavigateTool, NewTabParams, NewTabTool,
    ResolutionMethod, ResolvedTarget, ToolResult,
};
pub use element::{BoundingBox, ElementNode};
pub use errors::BrowserError;
pub use resolver::{ActivePageResolver, PageProbe};
pub use selector_map::{ElementSelector, SelectorMap};
pub use tree::DomTree;
pub use urls::normalize_url;
