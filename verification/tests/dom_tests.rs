use browser_use::{BoundingBox, DomTree, ElementNode, ElementSelector, SelectorMap};

fn pair(k: &str, v: &str) -> (String, String) {
    (k.to_string(), v.to_string())
}

#[test]
fn test_element_node_creation() {
    let attrs = vec![pair("id", "test-id"), pair("class", "btn primary")];

    let element = ElementNode::new("button")
        .with_attributes(attrs)
        .with_text("Click me")
        .with_index(1)
        .with_visibility(true)
        .with_interactivity(true);

    assert_eq!(element.tag_name, "button");
    assert_eq!(element.id(), Some(&"test-id".to_string()));
    assert_eq!(element.text_content, Some("Click me".to_string()));
    assert_eq!(element.index, Some(1));
    assert!(element.is_visible);
    assert!(element.is_interactive);
}

#[test]
fn test_has_class() {
    let mut element = ElementNode::new("div");
    element.add_attribute("class", "container main active");

    assert!(element.has_class("container"));
    assert!(element.has_class("main"));
    assert!(element.has_class("active"));
    assert!(!element.has_class("hidden"));
}

#[test]
fn test_compute_interactivity() {
    let mut button = ElementNode::new("button");
    button.compute_interactivity();
    assert!(button.is_interactive);

    let mut div = ElementNode::new("div");
    div.compute_interactivity();
    assert!(!div.is_interactive);

    let mut clickable_div = ElementNode::new("div");
    clickable_div.add_attribute("onclick", "alert('hi')");
    clickable_div.compute_interactivity();
    assert!(clickable_div.is_interactive);

    let mut role_button = ElementNode::new("div");
    role_button.add_attribute("role", "button");
    role_button.compute_interactivity();
    assert!(role_button.is_interactive);
}

#[test]
fn element_test_simplify() {
    let mut parent = ElementNode::new("div");
    parent.add_child(ElementNode::new("p").with_text("Content"));
    parent.add_child(ElementNode::new("script").with_text("alert('test')"));
    parent.add_child(ElementNode::new("style").with_text(".test { color: red; }"));
    parent.add_child(ElementNode::new("span").with_text("More content"));

    parent.simplify();

    assert_eq!(parent.children.len(), 2);
    assert!(parent.children[0].is_tag("p"));
    assert!(parent.children[1].is_tag("span"));
}

fn messy_tree() -> ElementNode {
    let mut root = ElementNode::new("body");
    let mut section = ElementNode::new("section");
    section.add_child(ElementNode::new("script").with_text("var x = 1;"));
    section.add_child(ElementNode::new("p").with_text("kept"));
    let mut nested = ElementNode::new("div");
    nested.add_child(ElementNode::new("noscript"));
    nested.add_child(ElementNode::new("em"));
    section.add_child(nested);
    root.add_child(section);
    root.add_child(ElementNode::new("style").with_text("p {}"));
    root
}

#[test]
fn test_simplify_idempotent() {
    // simplifying once and simplifying twice yield the same tree
    let mut once = messy_tree();
    once.simplify();
    let mut twice = messy_tree();
    twice.simplify();
    twice.simplify();
    assert_eq!(once, twice);

    // and no excluded tag survives anywhere
    fn no_excluded(node: &ElementNode) -> bool {
        node.children.iter().all(|c| {
            c.tag_name != "script"
                && c.tag_name != "style"
                && c.tag_name != "noscript"
                && no_excluded(c)
        })
    }
    assert!(no_excluded(&once));
}

#[test]
fn test_bounding_box() {
    let bbox = BoundingBox::new(10, 20, 100, 50);

    assert!(bbox.is_visible());
    assert_eq!(bbox.area(), 5000);

    let invisible_bbox = BoundingBox::new(0, 0, 0, 0);
    assert!(!invisible_bbox.is_visible());
}

#[test]
fn test_to_simple_string() {
    let attrs = vec![pair("id", "my-btn"), pair("class", "btn primary")];

    let element = ElementNode::new("button")
        .with_attributes(attrs)
        .with_text("Submit")
        .with_index(10);

    let simple = element.to_simple_string();
    assert!(simple.contains("<button"));
    assert!(simple.contains("id=\"my-btn\""));
    assert!(simple.contains("class=\"btn primary\""));
    assert!(simple.contains("data-index=\"10\""));
    assert!(simple.contains("Submit"));
}

#[test]
fn test_to_simple_string_exact() {
    let attrs = vec![pair("id", "my-btn"), pair("class", "btn primary")];
    let element = ElementNode::new("button")
        .with_attributes(attrs)
        .with_text("  Submit  ")
        .with_index(10);
    assert_eq!(
        element.to_simple_string(),
        "<button id=\"my-btn\" class=\"btn primary\" data-index=\"10\">Submit"
    );

    let bare = ElementNode::new("div");
    assert_eq!(bare.to_simple_string(), "<div>");
}

#[test]
fn test_element_node_export() {
    let element = ElementNode::new("div");
    assert_eq!(element.tag_name, "div");
}

#[test]
fn test_selector_map_export() {
    let map = SelectorMap::new();
    assert!(map.is_empty());
}

#[test]
fn test_dom_tree_export() {
    let root = ElementNode::new("body");
    let tree = DomTree::new(root);
    assert_eq!(tree.root.tag_name, "body");
}

#[test]
fn test_element_selector() {
    let selector = ElementSelector::new("#my-button", "button")
        .with_id("my-button")
        .with_text("Click me");

    assert_eq!(selector.css_selector, "#my-button");
    assert_eq!(selector.tag_name, "button");
    assert_eq!(selector.id, Some("my-button".to_string()));
    assert_eq!(selector.text, Some("Click me".to_string()));
    assert_eq!(selector.best_selector(), "#my-button");
}

#[test]
fn test_selector_map_register() {
    let mut map = SelectorMap::new();

    let selector1 = ElementSelector::new("#btn1", "button");
    let selector2 = ElementSelector::new("#btn2", "button");

    let idx1 = map.register(selector1);
    let idx2 = map.register(selector2);

    assert_eq!(idx1, 0);
    assert_eq!(idx2, 1);
    assert_eq!(map.len(), 2);
}

#[test]
fn test_selector_map_get() {
    let mut map = SelectorMap::new();

    let selector = ElementSelector::new("#test", "div").with_id("test");
    let index = map.register(selector);

    let retrieved = map.get(index).unwrap();
    assert_eq!(retrieved.css_selector, "#test");
    assert_eq!(retrieved.id, Some("test".to_string()));
}

#[test]
fn test_selector_map_remove() {
    let mut map = SelectorMap::new();

    let selector = ElementSelector::new("#remove-me", "span");
    let index = map.register(selector);

    assert!(map.contains(index));

    let removed = map.remove(index);
    assert!(removed.is_some());
    assert!(!map.contains(index));
    assert_eq!(map.len(), 0);
}

#[test]
fn test_selector_map_clear() {
    let mut map = SelectorMap::new();

    map.register(ElementSelector::new("#one", "div"));
    map.register(ElementSelector::new("#two", "div"));
    map.register(ElementSelector::new("#three", "div"));

    assert_eq!(map.len(), 3);

    map.clear();

    assert_eq!(map.len(), 0);
    assert!(map.is_empty());
}

#[test]
fn test_selector_map_find() {
    let mut map = SelectorMap::new();

    let selector1 = ElementSelector::new("#btn1", "button").with_id("btn1");
    let selector2 = ElementSelector::new(".link", "a").with_id("link1");

    let idx1 = map.register(selector1);
    let _idx2 = map.register(selector2);

    let found = map.find_by_css_selector("#btn1");
    assert_eq!(found, Some(idx1));

    let found_by_id = map.find_by_id("link1");
    assert_eq!(found_by_id, Some(1));

    let not_found = map.find_by_css_selector("#nonexistent");
    assert!(not_found.is_none());
}

#[test]
fn test_selector_map_iteration() {
    let mut map = SelectorMap::new();

    map.register(ElementSelector::new("#one", "div"));
    map.register(ElementSelector::new("#two", "div"));
    map.register(ElementSelector::new("#three", "div"));

    let indices: Vec<usize> = map.indices();
    assert_eq!(indices, vec![0, 1, 2]);

    let css_selectors: Vec<String> = map
        .selectors()
        .into_iter()
        .map(|s| s.css_selector)
        .collect();
    assert_eq!(css_selectors, vec!["#one", "#two", "#three"]);
}

#[test]
fn test_selector_map_counter_never_reused() {
    let mut map = SelectorMap::new();
    map.register(ElementSelector::new("#a", "div"));
    let middle = map.register(ElementSelector::new("#b", "div"));
    map.register(ElementSelector::new("#c", "div"));

    // removing an entry renumbers nothing and does not free its index
    map.remove(middle);
    assert_eq!(map.indices(), vec![0, 2]);
    let fresh = map.register(ElementSelector::new("#d", "div"));
    assert_eq!(fresh, 3);
    assert_eq!(map.indices(), vec![0, 2, 3]);
}

fn create_test_tree() -> ElementNode {
    let mut root = ElementNode::new("body");

    let mut header = ElementNode::new("header");
    let mut nav_button = ElementNode::new("button");
    nav_button.add_attribute("id", "nav-btn");
    nav_button.text_content = Some("Menu".to_string());
    nav_button.is_visible = true;
    header.add_child(nav_button);

    let mut main = ElementNode::new("main");
    let mut link = ElementNode::new("a");
    link.add_attribute("href", "/page");
    link.text_content = Some("Click here".to_string());
    link.is_visible = true;
    main.add_child(link);

    let mut div = ElementNode::new("div");
    div.add_attribute("class", "content");
    div.text_content = Some("Some text".to_string());
    main.add_child(div);

    root.add_child(header);
    root.add_child(main);

    root
}

#[test]
fn test_dom_tree_creation() {
    let root = create_test_tree();
    let tree = DomTree::new(root);

    assert_eq!(tree.root.tag_name, "body");
    assert_eq!(tree.root.children.len(), 2);
}

#[test]
fn test_build_selector_map() {
    let root = create_test_tree();
    let mut tree = DomTree::new(root);
    tree.build_selector_map();

    // two interactive visible elements: the button and the link
    assert_eq!(tree.count_interactive(), 2);
}

#[test]
fn test_find_node_by_index() {
    let root = create_test_tree();
    let mut tree = DomTree::new(root);
    tree.build_selector_map();

    let indices = tree.interactive_indices();
    assert!(!indices.is_empty());

    for &index in &indices {
        let node = tree.find_node_by_index(index);
        assert!(node.is_some());
        assert_eq!(node.unwrap().index, Some(index));
    }
}

#[test]
fn test_count_elements() {
    let root = create_test_tree();
    let tree = DomTree::new(root);

    // body + header + button + main + link + div
    assert_eq!(tree.count_elements(), 6);
}

#[test]
fn test_count_elements_ignores_flags() {
    let root = create_test_tree();
    let mut tree = DomTree::new(root);
    let before = tree.count_elements();
    tree.build_selector_map();
    assert_eq!(tree.count_elements(), before);

    let single = DomTree::new(ElementNode::new("html"));
    assert_eq!(single.count_elements(), 1);
}

#[test]
fn tree_test_simplify() {
    let mut root = ElementNode::new("body");
    root.add_child(ElementNode::new("p").with_text("Content"));
    root.add_child(ElementNode::new("script").with_text("alert('test')"));
    root.add_child(ElementNode::new("style").with_text(".test {}"));

    let mut tree = DomTree::new(root);
    tree.simplify();

    assert_eq!(tree.root.children.len(), 1);
    assert!(tree.root.children[0].is_tag("p"));
}

#[test]
fn test_get_selector() {
    let root = create_test_tree();
    let mut tree = DomTree::new(root);
    tree.build_selector_map();

    let indices = tree.interactive_indices();
    for &index in &indices {
        let selector = tree.get_selector(index);
        assert!(selector.is_some());
    }
}

#[test]
fn test_indices_in_document_order() {
    // pre-order: nav button first, then the link
    let root = create_test_tree();
    let mut tree = DomTree::new(root);
    tree.build_selector_map();

    assert_eq!(tree.interactive_indices(), vec![0, 1]);

    let first = tree.get_selector(0).unwrap();
    assert_eq!(first.tag_name, "button");
    assert_eq!(first.css_selector, "#nav-btn");
    assert_eq!(first.id, Some("nav-btn".to_string()));
    assert_eq!(first.text, Some("Menu".to_string()));

    let second = tree.get_selector(1).unwrap();
    assert_eq!(second.tag_name, "a");
    // the link has neither id nor class, so it falls back to the path
    assert_eq!(second.css_selector, "body > main:nth-child(2) > a:nth-child(1)");

    let button = tree.find_node_by_index(0).unwrap();
    assert_eq!(button.tag_name, "button");
    assert_eq!(button.index, Some(0));
    let link = tree.find_node_by_index(1).unwrap();
    assert_eq!(link.tag_name, "a");
    assert_eq!(link.index, Some(1));
}

#[test]
fn test_selector_synthesis_prefers_class_over_path() {
    let mut root = ElementNode::new("body");
    let mut widget = ElementNode::new("div");
    widget.add_attribute("class", "widget primary");
    widget.add_attribute("onclick", "go()");
    widget.is_visible = true;
    root.add_child(widget);

    let mut tree = DomTree::new(root);
    tree.build_selector_map();

    let sel = tree.get_selector(0).unwrap();
    assert_eq!(sel.css_selector, "div.widget");
}

#[test]
fn test_selector_text_preview_truncated() {
    let long_text = "x".repeat(60);
    let mut root = ElementNode::new("body");
    let mut button = ElementNode::new("button");
    button.text_content = Some(long_text.clone());
    button.is_visible = true;
    root.add_child(button);

    let mut tree = DomTree::new(root);
    tree.build_selector_map();

    let sel = tree.get_selector(0).unwrap();
    let expected = format!("{}...", "x".repeat(50));
    assert_eq!(sel.text, Some(expected));

    // short text is stored untouched
    let mut root2 = ElementNode::new("body");
    let mut b2 = ElementNode::new("button");
    b2.text_content = Some("short".to_string());
    b2.is_visible = true;
    root2.add_child(b2);
    let mut tree2 = DomTree::new(root2);
    tree2.build_selector_map();
    assert_eq!(tree2.get_selector(0).unwrap().text, Some("short".to_string()));
}

#[test]
fn test_invisible_interactive_gets_no_index() {
    let mut root = ElementNode::new("body");
    let hidden_button = ElementNode::new("button"); // interactive tag, not visible
    root.add_child(hidden_button);
    let mut visible_link = ElementNode::new("a");
    visible_link.is_visible = true;
    root.add_child(visible_link);

    let mut tree = DomTree::new(root);
    tree.build_selector_map();

    assert_eq!(tree.count_interactive(), 1);
    assert_eq!(tree.root.children[0].index, None);
    assert!(tree.root.children[0].is_interactive);
    assert_eq!(tree.root.children[1].index, Some(0));
}
