use gopher_gateway::client::{menu_item_to_browse_item, namespace_items, type_indicator, BrowseItem};
use gopher_gateway::config::{create_adapters, AdapterConfig, TuiConfig};
use gopher_gateway::fs::RootStatus;
use gopher_gateway::gopher::{ItemType, MenuItem};
use gopher_gateway::sources::{default_rdf_format, encode_uri, local_name, local_name_str, RdfFormat};
use gopher_gateway::tui::{App, Key, Mode, OpenAction, Pane, Request};

#[test]
fn identifiers_become_safe_components() {
    assert_eq!(encode_uri("http://example.org/ns#Thing"), "http:_s_sexample.org_sns_hThing");
    assert_ne!(encode_uri("a/b"), encode_uri("a_b"));
    assert_ne!(encode_uri("a#b"), encode_uri("a_b"));
    assert_eq!(encode_uri("a_b"), "a__b");
    assert_eq!(local_name("http://example.org/ns#Thing"), "Thing");
    assert_eq!(local_name("http://example.org/people/alice"), "alice");
    assert_eq!(local_name_str("plain"), "plain");
}

#[test]
fn graph_formats_by_name() {
    assert_eq!(RdfFormat::from_name("ttl"), Some(RdfFormat::Turtle));
    assert_eq!(RdfFormat::from_name("rdf/xml"), Some(RdfFormat::RdfXml));
    assert_eq!(RdfFormat::from_name("nt"), Some(RdfFormat::NTriples));
    assert_eq!(RdfFormat::from_name("json"), None);
    assert_eq!(default_rdf_format(), "turtle");
}

#[test]
fn configured_namespaces_and_adapters() {
    let mut c = TuiConfig::empty();
    c.adapter.push(AdapterConfig::Rss { namespace: "news".to_string(), url: "http://x/feed".to_string() });
    c.adapter.push(AdapterConfig::Rss { namespace: "".to_string(), url: "http://y".to_string() });
    assert_eq!(c.adapter_namespaces(), vec!["news/".to_string()]);
    let ok = create_adapters(&c.adapter, &vec![RootStatus::Directory, RootStatus::Directory]);
    assert_eq!(ok.map(|v| v.len()).unwrap_or(0), 2);
    let bad = vec![AdapterConfig::Rdf {
        namespace: "g".to_string(),
        source: None,
        format: "json".to_string(),
        sparql_endpoint: None,
    }];
    assert!(create_adapters(&bad, &vec![RootStatus::Directory]).is_err());
    let missing = vec![AdapterConfig::Fs {
        namespace: "v".to_string(),
        root: "/nowhere".to_string(),
        extensions: None,
        writable: false,
    }];
    assert!(create_adapters(&missing, &vec![RootStatus::Missing]).is_err());
}

#[test]
fn items_for_front_ends() {
    let b = menu_item_to_browse_item(MenuItem {
        itype: ItemType::Menu,
        display: "Docs".to_string(),
        selector: "/docs".to_string(),
        host: "vault".to_string(),
        port: 0,
    });
    assert_eq!(b.item_type, "1");
    assert_eq!(b.kind_name, "Menu");
    assert_eq!(b.path, "vault/docs");
    assert_eq!(b.mime, "application/x-gopher-menu");
    let info = menu_item_to_browse_item(MenuItem {
        itype: ItemType::Info,
        display: "hi".to_string(),
        selector: "/ignored".to_string(),
        host: "h".to_string(),
        port: 0,
    });
    assert_eq!(info.path, "");
    let roots = namespace_items(&vec!["a".to_string()]);
    assert_eq!(roots[0].path, "a/");
    assert_eq!(type_indicator("7"), "[?]");
    assert_eq!(type_indicator("i"), "   ");
    assert_eq!(type_indicator("z"), "[.]");
}

fn bi(t: &str, display: &str, path: &str) -> BrowseItem {
    BrowseItem {
        item_type: t.to_string(),
        kind_name: String::new(),
        display: display.to_string(),
        path: path.to_string(),
        mime: String::new(),
    }
}

#[test]
fn browser_state_transitions() {
    let mut app = App::new("", vec!["vault".to_string(), "example.org/x".to_string(), "vault".to_string()]);
    assert_eq!(app.known_paths, vec!["example.org/x".to_string(), "vault/".to_string()]);
    app.apply_browse(Ok(vec![bi("1", "Docs", "vault/docs"), bi("i", "note", ""), bi("0", "A", "vault/a")]));
    assert_eq!(app.items.len(), 3);
    assert!(app.known_paths.contains(&"vault/docs/".to_string()));
    assert!(app.known_paths.contains(&"vault/a".to_string()));
    app.move_down();
    app.move_down();
    app.move_down();
    assert_eq!(app.selected, 2);
    app.move_up();
    assert_eq!(app.selected, 1);
    app.enter_listing("vault/docs");
    assert_eq!(app.current_path, "vault/docs");
    app.apply_browse(Err("boom".to_string()));
    assert_eq!(app.status_message, "Error: boom");
    assert!(app.items.is_empty());
    app.go_back();
    assert_eq!(app.current_path, "");
    assert_eq!(app.items.len(), 3);
    assert_eq!(app.selected, 1);
    app.toggle_pane();
    assert_eq!(app.active_pane, Pane::Content);
    app.page_down();
    app.move_up();
    assert_eq!(app.content_scroll, 19);
    app.page_up();
    assert_eq!(app.content_scroll, 0);
}

#[test]
fn goto_popup_filters_ignoring_case() {
    let mut app = App::new("", vec!["Vault".to_string(), "feeds".to_string()]);
    app.enter_goto();
    assert_eq!(app.mode, Mode::GoTo);
    assert_eq!(app.goto_items.len(), 2);
    assert_eq!(app.goto_filtered, vec![0, 1]);
    app.goto_down();
    assert_eq!(app.goto_selected, 1);
    app.search_input = "VAU".to_string();
    app.update_goto_filter();
    assert_eq!(app.goto_filtered, vec![0]);
    assert_eq!(app.goto_selected, 0);
    app.cancel_goto();
    assert_eq!(app.mode, Mode::Normal);
    app.go_home();
    assert_eq!(app.current_path, "");
}

#[test]
fn opening_items_asks_for_the_right_fetch() {
    let mut app = App::new("vault/", vec![]);
    app.apply_browse(Ok(vec![bi("1", "Docs", "vault/docs"), bi("0", "A", "vault/a"), bi("7", "Find", "vault/find")]));
    match app.open_selected() {
        OpenAction::Browse(p) => assert_eq!(p, "vault/docs"),
        _ => panic!("expected a browse"),
    }
    assert_eq!(app.current_path, "vault/docs");
    app.go_back();
    app.move_down();
    match app.open_selected() {
        OpenAction::Fetch(p) => assert_eq!(p, "vault/a"),
        _ => panic!("expected a fetch"),
    }
    app.apply_fetch("vault/a", Ok("body".to_string()));
    assert_eq!(app.content, "body");
    assert_eq!(app.active_pane, Pane::Content);
    app.apply_fetch("vault/a", Err("gone".to_string()));
    assert_eq!(app.content, "Error fetching vault/a: gone");
    app.toggle_pane();
    app.move_down();
    assert!(matches!(app.open_selected(), OpenAction::Nothing));
    assert_eq!(app.mode, Mode::Search);
    assert_eq!(app.status_message, "Search in: vault/find");
    assert!(app.begin_search().is_none());
    app.search_input = "rust".to_string();
    assert_eq!(app.begin_search(), Some(("vault/find".to_string(), "rust".to_string())));
    app.apply_search("rust", Ok(vec![bi("0", "Hit", "vault/hit")]));
    assert_eq!(app.items.len(), 1);
    assert_eq!(app.status_message, "Search: \"rust\"");
    app.go_back();
    assert_eq!(app.items.len(), 3);
}

#[test]
fn goto_tree_expands_and_collapses() {
    let mut app = App::new("", vec!["vault".to_string()]);
    app.enter_goto();
    let (i, path) = app.goto_toggle().unwrap();
    assert_eq!((i, path.as_str()), (0, "vault/"));
    app.apply_goto_children(i, Some(vec![bi("1", "docs", "vault/docs"), bi("i", "note", ""), bi("0", "a", "vault/a")]));
    assert_eq!(app.goto_items.len(), 3);
    assert!(app.goto_items[0].expanded);
    assert_eq!(app.goto_items[1].path, "vault/docs/");
    assert_eq!(app.goto_items[1].depth, 1);
    assert_eq!(app.goto_filtered, vec![0, 1, 2]);
    app.goto_down();
    app.goto_up();
    assert_eq!(app.goto_selected, 0);
    assert!(app.goto_toggle().is_none());
    assert_eq!(app.goto_items.len(), 1);
    assert!(!app.goto_items[0].expanded);
    assert_eq!(app.begin_goto(), Some("vault/".to_string()));
    assert_eq!(app.current_path, "vault/");
    assert_eq!(app.mode, Mode::Normal);
}

#[test]
fn keys_drive_the_browser() {
    let mut app = App::new("", vec!["vault".to_string()]);
    app.apply_browse(Ok(vec![bi("1", "Docs", "vault/docs"), bi("7", "Find", "vault/find")]));
    assert_eq!(app.handle_key(Key::Char('j', false)), Request::Nothing);
    assert_eq!(app.selected, 1);
    assert_eq!(app.handle_key(Key::Char('/', false)), Request::Nothing);
    assert_eq!(app.mode, Mode::Search);
    app.handle_key(Key::Char('r', false));
    app.handle_key(Key::Char('x', false));
    app.handle_key(Key::Backspace);
    assert_eq!(app.search_input, "r");
    assert_eq!(app.handle_key(Key::Enter), Request::Search("vault/find".to_string(), "r".to_string()));
    assert_eq!(app.mode, Mode::Normal);
    app.handle_key(Key::Char(':', false));
    assert_eq!(app.mode, Mode::GoTo);
    app.handle_key(Key::Char('z', false));
    assert!(app.goto_filtered.is_empty());
    app.handle_key(Key::Backspace);
    assert_eq!(app.goto_filtered, vec![0]);
    assert_eq!(app.handle_key(Key::Tab), Request::Expand(0, "vault/".to_string()));
    assert_eq!(app.handle_key(Key::Enter), Request::Browse("vault/".to_string()));
    assert_eq!(app.handle_key(Key::Home), Request::Browse(String::new()));
    app.handle_key(Key::Char('c', false));
    assert!(!app.should_quit);
    app.handle_key(Key::Char('c', true));
    assert!(app.should_quit);
}
