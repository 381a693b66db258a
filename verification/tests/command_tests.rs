use browser_use::{
    normalize_url, ActionData, ActionOutcome, ActivePageResolver, BrowserError, ClickParams,
    ClickTool, ConnectionOptions, GetMarkdownTool, InputParams, InputTool, LaunchOptions,
    NavigateParams, NavigateTool, NewTabParams, NewTabTool, PageProbe, ResolutionMethod,
    SelectorMap,
};
use browser_use::dispatch::resolve_target;
use browser_use::dispatch::ElementSelector as TargetSelector;

#[test]
fn test_launch_options_builder() {
    let opts = LaunchOptions::new().headless(true).window_size(800, 600);

    assert!(opts.headless);
    assert_eq!(opts.window_width, 800);
    assert_eq!(opts.window_height, 600);
}

#[test]
fn test_connection_options() {
    let opts = ConnectionOptions::new("ws://localhost:9222").timeout(5000);

    assert_eq!(opts.ws_url, "ws://localhost:9222");
    assert_eq!(opts.timeout, 5000);
}

#[test]
fn test_normalize_url_policy() {
    assert_eq!(normalize_url("example.com"), "https://example.com");
    assert_eq!(normalize_url("google"), "https://www.google.com");
    assert_eq!(normalize_url("localhost:3000"), "http://localhost:3000");
    assert_eq!(normalize_url("about:blank"), "about:blank");
    assert_eq!(normalize_url("  example.com  "), "https://example.com");
}

#[test]
fn test_normalize_url_pass_through() {
    assert_eq!(normalize_url("https://a.b/c"), "https://a.b/c");
    assert_eq!(normalize_url("http://x.y"), "http://x.y");
    assert_eq!(normalize_url("file:///tmp/page.html"), "file:///tmp/page.html");
    assert_eq!(normalize_url("data:text/html,<p>hi</p>"), "data:text/html,<p>hi</p>");
    assert_eq!(normalize_url("chrome://settings"), "chrome://settings");
    assert_eq!(normalize_url("chrome-extension://abc/page"), "chrome-extension://abc/page");
    assert_eq!(normalize_url("/relative/path"), "/relative/path");
    assert_eq!(normalize_url("./here"), "./here");
    assert_eq!(normalize_url("../up"), "../up");
    assert_eq!(normalize_url("127.0.0.1:8080"), "http://127.0.0.1:8080");
}

fn small_registry() -> SelectorMap {
    let mut map = SelectorMap::new();
    map.register(browser_use::ElementSelector::new("#first", "button"));
    map.register(browser_use::ElementSelector::new(".second", "a"));
    map
}

#[test]
fn test_dispatch_ambiguous_target() {
    let map = small_registry();
    let r = resolve_target(&Some("#first".to_string()), Some(0), &map);
    assert!(matches!(r, Err(BrowserError::AmbiguousTarget)));
}

#[test]
fn test_dispatch_missing_target() {
    let map = small_registry();
    let r = resolve_target(&None, None, &map);
    assert!(matches!(r, Err(BrowserError::MissingTarget)));
}

#[test]
fn test_dispatch_unknown_index() {
    let map = small_registry();
    let r = resolve_target(&None, Some(7), &map);
    assert!(matches!(r, Err(BrowserError::UnknownIndex(7))));
}

#[test]
fn test_dispatch_resolves_index_and_selector() {
    let map = small_registry();

    let by_index = resolve_target(&None, Some(1), &map).unwrap();
    assert_eq!(by_index.method, ResolutionMethod::Index);
    assert_eq!(by_index.css_selector, ".second");
    assert_eq!(by_index.index, Some(1));

    let by_css = resolve_target(&Some("#anything".to_string()), None, &map).unwrap();
    assert_eq!(by_css.method, ResolutionMethod::Css);
    assert_eq!(by_css.css_selector, "#anything");
    assert_eq!(by_css.index, None);
}

#[test]
fn test_click_tool_plan_and_finish() {
    let map = small_registry();
    let tool = ClickTool::default();
    assert_eq!(tool.name(), "click");

    let params = ClickParams { selector: TargetSelector::Index { index: 0 } };
    let target = tool.plan(&params, &map).unwrap();
    assert_eq!(target.css_selector, "#first");

    let done = tool.finish(target, ActionOutcome::Completed).unwrap();
    assert!(done.success);
    assert!(done.error.is_none());
    match done.data.unwrap() {
        ActionData::Clicked { method, selector, index } => {
            assert_eq!(method, ResolutionMethod::Index);
            assert_eq!(selector, "#first");
            assert_eq!(index, Some(0));
        }
        _ => panic!("expected a click payload"),
    }

    let params2 = ClickParams { selector: TargetSelector::Index { index: 9 } };
    assert!(matches!(tool.plan(&params2, &map), Err(BrowserError::UnknownIndex(9))));

    let params3 = ClickParams {
        selector: TargetSelector::Css { selector: "#raw".to_string() },
    };
    let target3 = tool.plan(&params3, &map).unwrap();
    let failed = tool.finish(target3, ActionOutcome::EngineError("element detached".to_string()));
    match failed {
        Err(BrowserError::ActionFailed { command, reason }) => {
            assert_eq!(command, "click");
            assert_eq!(reason, "element detached");
        }
        _ => panic!("expected an action failure"),
    }
}

#[test]
fn test_input_tool_plan_and_finish() {
    let map = small_registry();
    let tool = InputTool::default();
    assert_eq!(tool.name(), "input");

    let both = InputParams {
        selector: Some("#a".to_string()),
        index: Some(0),
        text: "hi".to_string(),
        clear: false,
    };
    assert!(matches!(tool.plan(&both, &map), Err(BrowserError::AmbiguousTarget)));

    let neither = InputParams { selector: None, index: None, text: "hi".to_string(), clear: false };
    assert!(matches!(tool.plan(&neither, &map), Err(BrowserError::MissingTarget)));

    let by_index = InputParams {
        selector: None,
        index: Some(0),
        text: "hello".to_string(),
        clear: false,
    };
    let target = tool.plan(&by_index, &map).unwrap();
    let done = tool.finish(target, &by_index.text, ActionOutcome::Completed).unwrap();
    match done.data.unwrap() {
        ActionData::Typed { method, selector, index, text_length } => {
            assert_eq!(method, ResolutionMethod::Index);
            assert_eq!(selector, "#first");
            assert_eq!(index, Some(0));
            assert_eq!(text_length, 5);
        }
        _ => panic!("expected a typed payload"),
    }
}

#[test]
fn test_navigate_tool() {
    let tool = NavigateTool::default();
    assert_eq!(tool.name(), "navigate");

    let params = NavigateParams::new("example.com");
    assert!(params.wait_for_load);
    let normalized = tool.plan(&params);
    assert_eq!(normalized, "https://example.com");

    let done = tool.finish(&params, normalized, ActionOutcome::Completed).unwrap();
    assert!(done.success);
    match done.data.unwrap() {
        ActionData::Navigated { original_url, normalized_url, waited } => {
            assert_eq!(original_url, "example.com");
            assert_eq!(normalized_url, "https://example.com");
            assert!(waited);
        }
        _ => panic!("expected a navigation payload"),
    }

    let failed = tool.finish(
        &params,
        "https://example.com".to_string(),
        ActionOutcome::EngineError("timeout".to_string()),
    );
    match failed {
        Err(BrowserError::ActionFailed { command, reason }) => {
            assert_eq!(command, "navigate");
            assert_eq!(reason, "timeout");
        }
        _ => panic!("expected an action failure"),
    }
}

#[test]
fn test_new_tab_tool() {
    let tool = NewTabTool::default();
    assert_eq!(tool.name(), "new_tab");

    let params = NewTabParams { url: "google".to_string() };
    let normalized = tool.plan(&params);
    assert_eq!(normalized, "https://www.google.com");

    let done = tool.finish(&params, normalized, ActionOutcome::Completed).unwrap();
    match done.data.unwrap() {
        ActionData::OpenedTab { original_url, normalized_url } => {
            assert_eq!(original_url, "google");
            assert_eq!(normalized_url, "https://www.google.com");
        }
        _ => panic!("expected a new-tab payload"),
    }
}

#[test]
fn test_get_markdown_tool_name() {
    let tool = GetMarkdownTool::default();
    assert_eq!(tool.name(), "get_markdown");
}

#[test]
fn test_markdown_combine() {
    let tool = GetMarkdownTool::default();
    assert_eq!(tool.combine("Test Page", "Hello"), "# Test Page\n\nHello");
    assert_eq!(tool.combine("", "Just content"), "Just content");

    let done = tool
        .finish(
            "# T\n\nbody".to_string(),
            "T".to_string(),
            "https://example.com".to_string(),
            ActionOutcome::Completed,
        )
        .unwrap();
    match done.data.unwrap() {
        ActionData::Markdown { markdown, title, url, length } => {
            assert_eq!(markdown, "# T\n\nbody");
            assert_eq!(title, "T");
            assert_eq!(url, "https://example.com");
            assert_eq!(length, 9);
        }
        _ => panic!("expected a markdown payload"),
    }
}

#[test]
fn test_active_page_resolver_prefers_focus() {
    let probes = vec![
        PageProbe::Responded { visible: true, focused: false },
        PageProbe::Responded { visible: true, focused: true },
        PageProbe::Responded { visible: false, focused: false },
    ];
    assert_eq!(ActivePageResolver::resolve(&probes).unwrap(), 1);
}

#[test]
fn test_active_page_resolver_falls_back_to_visible() {
    let probes = vec![
        PageProbe::Responded { visible: false, focused: false },
        PageProbe::Responded { visible: false, focused: false },
        PageProbe::Responded { visible: true, focused: false },
    ];
    assert_eq!(ActivePageResolver::resolve(&probes).unwrap(), 2);
}

#[test]
fn test_active_page_resolver_no_active_page() {
    let probes = vec![
        PageProbe::Responded { visible: false, focused: false },
        PageProbe::Unresponsive,
    ];
    assert!(matches!(
        ActivePageResolver::resolve(&probes),
        Err(BrowserError::NoActivePage)
    ));

    let empty: Vec<PageProbe> = Vec::new();
    assert!(matches!(
        ActivePageResolver::resolve(&empty),
        Err(BrowserError::NoActivePage)
    ));
}

#[test]
fn test_active_page_resolver_skips_unresponsive() {
    let probes = vec![
        PageProbe::Unresponsive,
        PageProbe::Responded { visible: true, focused: true },
    ];
    assert_eq!(ActivePageResolver::resolve(&probes).unwrap(), 1);
}

#[test]
fn test_error_messages() {
    assert_eq!(BrowserError::NoActivePage.message(), "no active page");
    assert_eq!(
        BrowserError::AmbiguousTarget.message(),
        "cannot specify both 'selector' and 'index'"
    );
    assert_eq!(
        BrowserError::MissingTarget.message(),
        "must specify either 'selector' or 'index'"
    );
    assert_eq!(BrowserError::UnknownIndex(42).message(), "no element with index 42");
    assert_eq!(
        BrowserError::ActionFailed {
            command: "click".to_string(),
            reason: "gone".to_string()
        }
        .message(),
        "action 'click' failed: gone"
    );
    assert_eq!(
        BrowserError::NavigationFailed("timeout".to_string()).message(),
        "navigation failed: timeout"
    );
}

#[test]
fn test_default_constructors() {
    let map: SelectorMap = Default::default();
    assert!(map.is_empty());

    let opts = LaunchOptions::default();
    assert!(opts.headless);
    assert!(opts.sandbox);
    assert!(opts.chrome_path.is_none());
    assert!(opts.user_data_dir.is_none());
}
