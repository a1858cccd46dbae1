use gopher_gateway::adapters::{AdapterError, SourceAdapter};
use gopher_gateway::fs::{ancestor_selectors_of, join, sort_entries, DirEntryInfo, FsAdapter, RootStatus};
use gopher_gateway::gopher::ItemType;
use gopher_gateway::router::Router;
use gopher_gateway::store::{ContentNode, LocalStore};

fn adapter(writable: bool, exts: Option<Vec<String>>) -> FsAdapter {
    FsAdapter::new("vault".to_string(), "/srv/root".to_string(), exts, writable, RootStatus::Directory)
        .unwrap()
}

fn file(name: &str, text: Option<&str>) -> DirEntryInfo {
    DirEntryInfo { name: name.to_string(), is_dir: false, is_file: true, text: text.map(|t| t.to_string()) }
}

fn dir(name: &str) -> DirEntryInfo {
    DirEntryInfo { name: name.to_string(), is_dir: true, is_file: false, text: None }
}

#[test]
fn parent_segments_are_rejected() {
    let a = adapter(true, None);
    assert!(matches!(a.selector_to_path("/../etc/passwd"), Err(AdapterError::PathTraversal(s)) if s == "/../etc/passwd"));
    assert!(matches!(a.selector_to_path("/a/.."), Err(AdapterError::PathTraversal(_))));
    assert_eq!(a.selector_to_path("/a/..b").unwrap(), "/srv/root/a/..b");
    assert_eq!(a.selector_to_path("/notes/today.md").unwrap(), "/srv/root/notes/today.md");
}

#[test]
fn resolved_paths_must_stay_under_the_root() {
    assert!(FsAdapter::check_resolved("/x", "/real/root/x", "/real/root").is_ok());
    assert!(FsAdapter::check_resolved("", "/real/root", "/real/root").is_ok());
    assert!(matches!(FsAdapter::check_resolved("/x", "/real/rootx", "/real/root"), Err(AdapterError::PathTraversal(_))));
    assert!(matches!(FsAdapter::check_resolved("/x", "/etc/passwd", "/real/root"), Err(AdapterError::PathTraversal(_))));
}

#[test]
fn paths_map_to_selectors() {
    let a = adapter(false, None);
    assert_eq!(a.path_to_selector("/srv/root"), "");
    assert_eq!(a.path_to_selector("/srv/root/docs/a.txt"), "/docs/a.txt");
    assert_eq!(join("/srv/root", "a"), "/srv/root/a");
    assert_eq!(join("/srv/root/", "a"), "/srv/root/a");
    assert_eq!(join("/srv/root", "/abs"), "/abs");
}

#[test]
fn binary_extensions_and_filters() {
    assert!(FsAdapter::is_binary_extension("JPG"));
    assert!(FsAdapter::is_binary_extension("gz"));
    assert!(!FsAdapter::is_binary_extension("txt"));
    assert_eq!(FsAdapter::extension("a.tar.gz"), Some("gz".to_string()));
    assert_eq!(FsAdapter::extension(".profile"), None);
    assert_eq!(FsAdapter::extension("README"), None);
    let a = adapter(false, Some(vec![".md".to_string(), "TXT".to_string()]));
    assert!(a.should_include_file("notes.MD"));
    assert!(a.should_include_file("a.txt"));
    assert!(!a.should_include_file("image.png"));
    assert!(!a.should_include_file("Makefile"));
    assert!(adapter(false, None).should_include_file("Makefile"));
}

#[test]
fn root_problems_are_config_errors() {
    assert!(matches!(
        FsAdapter::new("v".to_string(), "/nope".to_string(), None, false, RootStatus::Missing),
        Err(AdapterError::Config(_))
    ));
    assert!(matches!(
        FsAdapter::new("v".to_string(), "/file".to_string(), None, false, RootStatus::NotDirectory),
        Err(AdapterError::Config(_))
    ));
}

#[test]
fn listings_skip_hidden_entries_and_mark_binaries() {
    let a = adapter(false, None);
    let entries = vec![dir("sub"), file(".hidden", Some("x")), file("pic.png", None), file("a.txt", Some("hello"))];
    let items = a.build_menu_items("/srv/root", &entries);
    assert_eq!(items.len(), 3);
    assert_eq!(items[0].itype, ItemType::Menu);
    assert_eq!(items[0].selector, "/sub");
    assert_eq!(items[0].host, "vault");
    assert_eq!(items[1].itype, ItemType::Binary);
    assert_eq!(items[2].itype, ItemType::TextFile);
    assert_eq!(items[2].selector, "/a.txt");
}

#[test]
fn override_file_replaces_the_generated_listing() {
    let a = adapter(false, None);
    let items = a.directory_listing("/srv/root", vec![dir("sub")], Some("iWelcome\n0Read me\t/readme\tvault\t70\n"));
    assert_eq!(items.len(), 2);
    assert_eq!(items[0].itype, ItemType::Info);
    assert_eq!(items[1].selector, "/readme");
}

#[test]
fn indexing_stores_documents_and_listing() {
    let a = adapter(false, None);
    let mut s = LocalStore::new();
    s.register_namespace("vault");
    let entries = vec![dir("sub"), file("a.txt", Some("hello")), file("bad.txt", None), file("b.bin", Some("x"))];
    let subdirs = a.index_directory(&mut s, "/srv/root", entries, None);
    assert_eq!(subdirs, vec!["/srv/root/sub".to_string()]);
    assert!(matches!(s.get_content("vault", "/a.txt"), Some(ContentNode::Document(t)) if t == "hello"));
    assert!(s.get_content("vault", "/bad.txt").is_none());
    assert!(s.get_content("vault", "/b.bin").is_none());
    assert!(matches!(s.get_content("vault", ""), Some(ContentNode::Menu(v)) if v.len() == 4));
}

#[test]
fn publish_then_fetch_and_browse() {
    let a = adapter(true, None);
    let mut s = LocalStore::new();
    s.register_namespace("vault");
    let target = a.write_path("/a/b.txt").unwrap();
    assert_eq!(target, "/srv/root/a/b.txt");
    a.record_document(&mut s, "/a/b.txt", "hello");
    let ancestors = ancestor_selectors_of("/a/b.txt");
    assert_eq!(ancestors, vec!["/a".to_string(), "".to_string()]);
    a.refresh_directory(&mut s, "/srv/root/a", vec![file("b.txt", Some("hello"))], None);
    a.refresh_directory(&mut s, "/srv/root", vec![dir("a")], None);
    let mut r = Router::new(s);
    r.register_adapter(a.namespace(), a.is_writable());
    assert_eq!(r.fetch_local("vault", "/a/b.txt").unwrap(), "hello");
    let listing = r.browse_local("vault", "/a").unwrap();
    assert!(listing.iter().any(|i| i.selector == "/a/b.txt"));
}

#[test]
fn read_only_adapter_refuses_writes() {
    let a = adapter(false, None);
    assert!(matches!(a.write_path("/x"), Err(AdapterError::NotWritable(n)) if n == "vault"));
}

#[test]
fn deleting_a_directory_forgets_its_tree() {
    let a = adapter(true, None);
    let mut s = LocalStore::new();
    s.register_namespace("vault");
    s.add_content("vault", "/d", ContentNode::Menu(Vec::new()));
    s.add_content("vault", "/d/x", ContentNode::Document("1".to_string()));
    s.add_content("vault", "/d/e/y", ContentNode::Document("2".to_string()));
    s.add_content("vault", "/dz", ContentNode::Document("3".to_string()));
    a.forget(&mut s, "/d", true);
    assert!(s.get_content("vault", "/d").is_none());
    assert!(s.get_content("vault", "/d/x").is_none());
    assert!(s.get_content("vault", "/d/e/y").is_none());
    assert!(s.get_content("vault", "/dz").is_some());
    a.forget(&mut s, "/dz", false);
    assert!(s.get_content("vault", "/dz").is_none());
}

#[test]
fn entries_are_listed_and_queued_in_name_order() {
    let a = adapter(false, None);
    let names: Vec<String> = sort_entries(vec![file("c.txt", None), dir("b"), file("a.txt", None), dir("B")])
        .into_iter()
        .map(|e| e.name)
        .collect();
    assert_eq!(names, vec!["B", "a.txt", "b", "c.txt"]);
    let items = a.build_menu_items("/srv/root", &vec![file("z.txt", Some("z")), dir("m"), file("a.txt", Some("a"))]);
    let shown: Vec<&str> = items.iter().map(|i| i.display.as_str()).collect();
    assert_eq!(shown, vec!["z.txt", "m", "a.txt"]);
    let listed = a.directory_listing("/srv/root", vec![file("z.txt", Some("z")), dir("m"), file("a.txt", Some("a"))], None);
    let sorted: Vec<&str> = listed.iter().map(|i| i.display.as_str()).collect();
    assert_eq!(sorted, vec!["a.txt", "m", "z.txt"]);
    let mut s = LocalStore::new();
    s.register_namespace("vault");
    let queue = a.index_directory(&mut s, "/srv/root", vec![dir("zeta"), dir("alpha")], None);
    assert_eq!(queue, vec!["/srv/root/alpha".to_string(), "/srv/root/zeta".to_string()]);
}

#[test]
fn writes_are_confined_through_links() {
    let a = adapter(true, None);
    assert_eq!(a.confine("/notes/new.md", 2, "/real/root", "/real/root").unwrap(), "/srv/root/notes/new.md");
    assert_eq!(a.confine("/x.md", 0, "/real/root/x.md", "/real/root").unwrap(), "/srv/root/x.md");
    assert!(matches!(
        a.confine("/link/new.md", 1, "/etc", "/real/root"),
        Err(AdapterError::PathTraversal(s)) if s == "/link/new.md"
    ));
    assert!(matches!(a.confine("/../x", 0, "/real/root", "/real/root"), Err(AdapterError::PathTraversal(_))));
    assert!(matches!(a.confine("/x", 9, "/", "/real/root"), Err(AdapterError::PathTraversal(_))));
    assert!(a.keeps_text("a.txt"));
    assert!(!a.keeps_text("a.png"));
    assert!(!a.keeps_text(".hidden"));
    assert!(FsAdapter::require_existing("/srv/root/x", true).is_ok());
    assert!(matches!(FsAdapter::require_existing("/srv/root/x", false), Err(AdapterError::NotFound(p)) if p == "/srv/root/x"));
}
