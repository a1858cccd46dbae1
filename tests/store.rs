use gopher_gateway::gopher::{ItemType, MenuItem};
use gopher_gateway::store::{ContentNode, LocalStore};

fn doc(s: &str) -> ContentNode {
    ContentNode::Document(s.to_string())
}

fn text_of(n: Option<ContentNode>) -> Option<String> {
    match n {
        Some(ContentNode::Document(t)) => Some(t),
        _ => None,
    }
}

#[test]
fn put_then_get_returns_the_entry() {
    let mut s = LocalStore::new();
    s.register_namespace("ns");
    s.add_content("ns", "/p", doc("body"));
    assert_eq!(text_of(s.get_content("ns", "/p")), Some("body".to_string()));
    s.add_content("ns", "/p", doc("new"));
    assert_eq!(text_of(s.get_content("ns", "/p")), Some("new".to_string()));
}

#[test]
fn put_on_unregistered_namespace_is_ignored() {
    let mut s = LocalStore::new();
    s.add_content("ghost", "/p", doc("body"));
    assert!(s.get_content("ghost", "/p").is_none());
    assert!(!s.has_namespace("ghost"));
}

#[test]
fn registering_twice_keeps_content() {
    let mut s = LocalStore::new();
    s.register_namespace("ns");
    s.add_content("ns", "", doc("root"));
    s.register_namespace("ns");
    assert_eq!(text_of(s.get_content("ns", "")), Some("root".to_string()));
}

#[test]
fn remove_and_prefix_search() {
    let mut s = LocalStore::new();
    s.register_namespace("ns");
    s.add_content("ns", "/a", doc("1"));
    s.add_content("ns", "/a/b", doc("2"));
    s.add_content("ns", "/ab", doc("3"));
    let mut keys = s.selectors_with_prefix("ns", "/a/");
    keys.sort();
    assert_eq!(keys, vec!["/a/b".to_string()]);
    s.remove_content("ns", "/a/b");
    assert!(s.get_content("ns", "/a/b").is_none());
    assert!(s.get_content("ns", "/ab").is_some());
}

#[test]
fn namespace_names_are_sorted() {
    let mut s = LocalStore::new();
    s.register_namespace("zeta");
    s.register_namespace("alpha");
    s.register_namespace("Mid");
    assert_eq!(s.namespace_names(), vec!["Mid".to_string(), "alpha".to_string(), "zeta".to_string()]);
}

#[test]
fn example_content_is_seeded() {
    let mut s = LocalStore::new();
    s.seed_example();
    match s.get_content("local", "") {
        Some(ContentNode::Menu(items)) => {
            assert_eq!(items.len(), 3);
            assert_eq!(items[1].itype, ItemType::Info);
        }
        _ => panic!("root listing missing"),
    }
    assert_eq!(
        text_of(s.get_content("local", "/sub/deep")),
        Some("This is a document deep in the local hierarchy.".to_string())
    );
    let item = MenuItem {
        itype: ItemType::Menu,
        display: "x".to_string(),
        selector: "/x".to_string(),
        host: "h".to_string(),
        port: 1,
    };
    assert_eq!(item.duplicate().selector, "/x");
}
