use gopher_gateway::gopher::{ItemType, MenuItem};
use gopher_gateway::router::{filter_items, matches_folded, Route, Router, RouterError};
use gopher_gateway::store::{ContentNode, LocalStore};

fn item(display: &str) -> MenuItem {
    MenuItem {
        itype: ItemType::TextFile,
        display: display.to_string(),
        selector: format!("/{}", display),
        host: "ns".to_string(),
        port: 0,
    }
}

fn router_with_listing() -> Router {
    let mut s = LocalStore::new();
    s.register_namespace("ns");
    s.add_content("ns", "", ContentNode::Menu(vec![item("Apple"), item("banana"), item("Cherry")]));
    s.add_content("ns", "/doc", ContentNode::Document("text".to_string()));
    Router::new(s)
}

#[test]
fn search_falls_back_to_case_insensitive_filter() {
    let r = router_with_listing();
    let found = r.search_local("ns", "", "an", None).unwrap();
    let names: Vec<String> = found.iter().map(|i| i.display.clone()).collect();
    assert_eq!(names, vec!["banana".to_string()]);
}

#[test]
fn search_prefers_the_adapter_answer() {
    let r = router_with_listing();
    let found = r.search_local("ns", "", "an", Some(vec![item("Own")])).unwrap();
    assert_eq!(found.len(), 1);
    assert_eq!(found[0].display, "Own");
}

#[test]
fn search_without_listing_is_not_found() {
    let r = router_with_listing();
    assert!(matches!(r.search_local("ns", "/doc", "x", None), Err(RouterError::SelectorNotFound(_, _))));
}

#[test]
fn filter_matches_ignoring_case() {
    let items = vec![item("Alpha"), item("BETA"), item("gamma")];
    let out = filter_items(&items, "ET");
    assert_eq!(out.len(), 1);
    assert_eq!(out[0].display, "BETA");
    assert!(matches_folded("banana", "an"));
    assert!(!matches_folded("apple", "an"));
    assert!(matches_folded("anything", ""));
}

#[test]
fn address_splits_at_first_slash() {
    let r = router_with_listing();
    assert_eq!(r.parse_path("ns/a/b"), ("ns".to_string(), "/a/b".to_string()));
    assert_eq!(r.parse_path("ns/"), ("ns".to_string(), "".to_string()));
    assert_eq!(r.parse_path("ns"), ("ns".to_string(), "".to_string()));
}

#[test]
fn kind_mismatch_is_not_found() {
    let r = router_with_listing();
    assert!(matches!(r.browse_local("ns", "/doc"), Err(RouterError::SelectorNotFound(_, _))));
    assert!(matches!(r.fetch_local("ns", ""), Err(RouterError::SelectorNotFound(_, _))));
    assert_eq!(r.fetch_local("ns", "/doc").unwrap(), "text");
    assert_eq!(r.browse_local("ns", "").unwrap().len(), 3);
}

#[test]
fn routes_local_and_remote() {
    let r = router_with_listing();
    match r.route("ns/doc") {
        Route::Local { namespace, selector } => {
            assert_eq!(namespace, "ns");
            assert_eq!(selector, "/doc");
        }
        _ => panic!("expected a local route"),
    }
    match r.route("example.org/x") {
        Route::Remote { host, selector } => {
            assert_eq!(host, "example.org");
            assert_eq!(selector, "/x");
        }
        _ => panic!("expected a remote route"),
    }
}

#[test]
fn writes_need_a_writable_local_adapter() {
    let mut r = router_with_listing();
    assert!(matches!(r.write_target("ns/a"), Err(RouterError::NotWritable(n)) if n == "ns"));
    assert!(matches!(r.write_target("remote.host/a"), Err(RouterError::NotWritable(_))));
    r.register_adapter("ns", false);
    assert!(matches!(r.write_target("ns/a"), Err(RouterError::NotWritable(_))));
    r.register_adapter("ns", true);
    assert_eq!(r.write_target("ns/a/b.txt").unwrap(), ("ns".to_string(), "/a/b.txt".to_string()));
}

#[test]
fn namespaces_are_the_sorted_union() {
    let mut r = router_with_listing();
    r.register_adapter("feeds", false);
    r.register_adapter("ns", true);
    assert_eq!(r.namespaces(), vec!["feeds".to_string(), "ns".to_string()]);
}
