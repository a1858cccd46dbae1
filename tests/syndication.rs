use gopher_gateway::feed::{entry_document, slug, Feed, FeedCategory, FeedEntry};
use gopher_gateway::gopher::ItemType;
use gopher_gateway::graph::{
    resource_document, sorted_classes, sorted_subjects, sparql_query, Binding, Triple, RDF_TYPE,
};
use gopher_gateway::sources::{RdfAdapter, RdfFormat, RssAdapter};
use gopher_gateway::store::{ContentNode, LocalStore};
use gopher_gateway::text::decimal_string;

fn t(s: &str, p: &str, o: &str) -> Triple {
    Triple { subject: s.to_string(), predicate: p.to_string(), object: o.to_string() }
}

fn graph() -> Vec<Triple> {
    vec![
        t("http://ex.org/bob", RDF_TYPE, "http://ex.org/Person"),
        t("http://ex.org/bob", "http://ex.org/name", "Bob"),
        t("http://ex.org/alice", RDF_TYPE, "http://ex.org/Person"),
        t("http://ex.org/acme", RDF_TYPE, "http://ex.org/Org"),
    ]
}

fn menu(s: &LocalStore, ns: &str, sel: &str) -> Vec<(ItemType, String, String)> {
    match s.get_content(ns, sel) {
        Some(ContentNode::Menu(items)) => items.into_iter().map(|i| (i.itype, i.display, i.selector)).collect(),
        _ => panic!("no listing at {}", sel),
    }
}

#[test]
fn graph_subjects_and_classes_are_sorted_and_distinct() {
    let g = graph();
    assert_eq!(
        sorted_subjects(&g),
        vec!["http://ex.org/acme".to_string(), "http://ex.org/alice".to_string(), "http://ex.org/bob".to_string()]
    );
    assert_eq!(sorted_classes(&g), vec!["http://ex.org/Org".to_string(), "http://ex.org/Person".to_string()]);
}

#[test]
fn resource_documents_list_properties() {
    assert_eq!(
        resource_document("http://ex.org/bob", &graph()),
        "Resource: http://ex.org/bob\n\ntype: http://ex.org/Person\nname: Bob"
    );
}

#[test]
fn graph_sync_builds_class_listings() {
    let a = RdfAdapter::new("kb".to_string(), None, RdfFormat::Turtle, Some("http://ex.org/sparql".to_string()));
    let mut s = LocalStore::new();
    a.sync_graph(&mut s, Some(&graph()));
    let root = menu(&s, "kb", "");
    assert_eq!(root.len(), 5);
    assert_eq!(root[0].1, "RDF Classes");
    assert_eq!(root[2], (ItemType::Menu, "Org".to_string(), "/class/http:_s_sex.org_sOrg".to_string()));
    assert_eq!(root[4], (ItemType::Search, "SPARQL Search (sparql)".to_string(), "/sparql".to_string()));
    let people = menu(&s, "kb", "/class/http:_s_sex.org_sPerson");
    assert_eq!(people[0].1, "Class: Person");
    assert_eq!(people[2], (ItemType::TextFile, "alice".to_string(), "/resource/http:_s_sex.org_salice".to_string()));
    assert_eq!(people[3].1, "bob");
    assert!(matches!(s.get_content("kb", "/resource/http:_s_sex.org_sbob"), Some(ContentNode::Document(_))));
}

#[test]
fn graph_sync_without_data_lists_the_endpoint() {
    let a = RdfAdapter::new("kb".to_string(), None, RdfFormat::Turtle, Some("http://ex.org/q".to_string()));
    let mut s = LocalStore::new();
    a.sync_graph(&mut s, None);
    let root = menu(&s, "kb", "");
    assert_eq!(root.len(), 3);
    assert_eq!(root[0].1, "SPARQL Endpoint");
}

#[test]
fn search_rows_give_one_item_per_resource() {
    let a = RdfAdapter::new("kb".to_string(), None, RdfFormat::Turtle, None);
    let rows = vec![
        Binding { subject: Some("http://ex.org/bob".to_string()), label: Some("Robert".to_string()) },
        Binding { subject: Some("http://ex.org/bob".to_string()), label: None },
        Binding { subject: Some("http://ex.org/x#y".to_string()), label: None },
        Binding { subject: None, label: None },
    ];
    let items = a.search_results(&rows);
    assert_eq!(items.len(), 3);
    assert_eq!(items[0].display, "Robert");
    assert_eq!(items[1].display, "y");
    assert_eq!(items[1].selector, "/resource/http:_s_sex.org_sx_hy");
    assert_eq!(items[2].display, "unknown");
    assert!(sparql_query("cat").contains("LCASE(\"cat\")"));
}

fn entry(title: Option<&str>, cats: Vec<(&str, Option<&str>)>) -> FeedEntry {
    FeedEntry {
        title: title.map(|s| s.to_string()),
        published: Some("2024-01-02 03:04:05 UTC".to_string()),
        updated: None,
        content: None,
        summary: Some("Short".to_string()),
        links: vec!["https://ex.org/1".to_string()],
        categories: cats
            .into_iter()
            .map(|(term, label)| FeedCategory { term: term.to_string(), label: label.map(|l| l.to_string()) })
            .collect(),
    }
}

#[test]
fn entry_documents_have_date_body_and_links() {
    assert_eq!(
        entry_document(&entry(Some("Hello"), vec![])),
        "Hello\nPublished: 2024-01-02 03:04:05 UTC\n\nShort\n\nLink: https://ex.org/1"
    );
    let bare = FeedEntry {
        title: None,
        published: None,
        updated: None,
        content: None,
        summary: None,
        links: vec![],
        categories: vec![],
    };
    assert_eq!(entry_document(&bare), "Untitled\n\nNo content available");
}

#[test]
fn feed_sync_groups_entries_by_category() {
    let a = RssAdapter::new("news".to_string(), "https://ex.org/feed".to_string());
    let f = Feed {
        title: Some("Example".to_string()),
        entries: vec![
            entry(Some("One"), vec![("rust", Some("Rust Lang")), ("web", None)]),
            entry(Some("Two"), vec![("x", Some("rust lang"))]),
        ],
    };
    let mut s = LocalStore::new();
    a.sync_feed(&mut s, &f);
    let root = menu(&s, "news", "");
    assert_eq!(root.len(), 6);
    assert_eq!(root[0].1, "Example");
    assert_eq!(root[2], (ItemType::TextFile, "One".to_string(), "/entry/0".to_string()));
    assert_eq!(root[4], (ItemType::Menu, "Rust Lang".to_string(), "/category/rust-lang".to_string()));
    assert_eq!(root[5].2, "/category/web");
    let rust = menu(&s, "news", "/category/rust-lang");
    assert_eq!(rust.len(), 4);
    assert_eq!(rust[0].1, "Category: Rust Lang");
    assert_eq!(rust[3], (ItemType::TextFile, "Two".to_string(), "/entry/1".to_string()));
    assert_eq!(slug("Big News Today"), "big-news-today");
    assert_eq!(decimal_string(1234), "1234");
    assert_eq!(decimal_string(0), "0");
}
