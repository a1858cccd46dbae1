use gopher_gateway::gopher::{ItemType, MenuItem};
use gopher_gateway::mirror::{child_destination_of, item_address_of, Mirror, MirrorAction};

fn entry(t: ItemType, display: &str, selector: &str) -> MenuItem {
    MenuItem {
        itype: t,
        display: display.to_string(),
        selector: selector.to_string(),
        host: "src".to_string(),
        port: 0,
    }
}

#[test]
fn one_failed_document_among_siblings_is_skipped() {
    let mut m = Mirror::new("src/", "dst/", 3);
    assert!(matches!(m.next_action(), MirrorAction::Browse(ref s) if s == "src/"));
    m.on_browse(Some(vec![
        entry(ItemType::TextFile, "a", "/a"),
        entry(ItemType::TextFile, "b", "/b"),
        entry(ItemType::TextFile, "c", "/c"),
    ]));
    let mut copies = Vec::new();
    loop {
        match m.next_action() {
            MirrorAction::Copy { from, to } => {
                let ok = from != "src/b";
                copies.push((from, to));
                m.on_copy(ok);
            }
            MirrorAction::Browse(_) => panic!("no listing to browse"),
            MirrorAction::Done => break,
        }
    }
    assert_eq!(copies.len(), 3);
    assert_eq!(copies[0], ("src/a".to_string(), "dst/a".to_string()));
    let r = m.result();
    assert_eq!(r.published, 2);
    assert_eq!(r.skipped, 1);
}

#[test]
fn listings_at_the_depth_bound_are_skipped() {
    let mut m = Mirror::new("src/", "dst", 1);
    m.on_browse(Some(vec![
        entry(ItemType::Menu, "sub", "/sub"),
        entry(ItemType::Info, "note", ""),
    ]));
    assert_eq!(m.result().skipped, 1);
    match m.next_action() {
        MirrorAction::Browse(s) => assert_eq!(s, "src/sub"),
        _ => panic!("expected the sub-listing"),
    }
    m.on_browse(Some(vec![
        entry(ItemType::Menu, "deeper", "/sub/deeper"),
        entry(ItemType::Html, "page", "/sub/page"),
    ]));
    assert_eq!(m.result().skipped, 2);
    match m.next_action() {
        MirrorAction::Copy { from, to } => {
            assert_eq!(from, "src/sub/page");
            assert_eq!(to, "dst/sub/page");
        }
        _ => panic!("expected a copy"),
    }
    m.on_copy(true);
    assert!(matches!(m.next_action(), MirrorAction::Done));
    assert_eq!(m.result().published, 1);
    assert_eq!(m.result().skipped, 2);
}

#[test]
fn failed_browse_counts_the_branch_as_skipped() {
    let mut m = Mirror::new("gone/", "dst", 2);
    m.on_browse(None);
    assert!(matches!(m.next_action(), MirrorAction::Done));
    assert_eq!(m.result().skipped, 1);
    assert_eq!(m.result().published, 0);
}

#[test]
fn addresses_and_destinations_are_joined() {
    assert_eq!(item_address_of("host", "//a/b"), "host/a/b");
    assert_eq!(child_destination_of("dst//", "file.txt"), "dst/file.txt");
}
