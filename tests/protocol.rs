use gopher_gateway::gopher::{GopherClient, ItemType, MenuItem};

fn parse(s: &str) -> Vec<MenuItem> {
    GopherClient::parse_menu_lines(s)
}

#[test]
fn listing_line_with_terminator_gives_one_item() {
    let items = parse("1Menu\t/x\thost\t70\r\n.\r\n");
    assert_eq!(items.len(), 1);
    assert_eq!(items[0].itype, ItemType::Menu);
    assert_eq!(items[0].display, "Menu");
    assert_eq!(items[0].selector, "/x");
    assert_eq!(items[0].host, "host");
    assert_eq!(items[0].port, 70);
}

#[test]
fn listing_parse_is_idempotent_on_well_formed_input() {
    let text = "0Doc\t/d\tlocal\t7070\r\n1Dir\t/e\tlocal\t70\r\n";
    let a = parse(text);
    let b = parse(text);
    assert_eq!(a.len(), 2);
    assert_eq!(a.len(), b.len());
    for (x, y) in a.iter().zip(b.iter()) {
        assert_eq!(x.itype, y.itype);
        assert_eq!(x.display, y.display);
        assert_eq!(x.selector, y.selector);
        assert_eq!(x.host, y.host);
        assert_eq!(x.port, y.port);
    }
    assert_eq!(a[0].port, 7070);
}

#[test]
fn listing_port_defaults_when_missing_or_bad() {
    let items = parse("0A\t/a\th\n0B\t/b\th\tnope\n0C\t/c\th\t99999\n0D\t/d\th\t+81\n");
    assert_eq!(items.len(), 4);
    assert_eq!(items[0].port, 70);
    assert_eq!(items[1].port, 70);
    assert_eq!(items[2].port, 70);
    assert_eq!(items[3].port, 81);
}

#[test]
fn listing_keeps_short_info_lines_and_drops_other_short_lines() {
    let items = parse("iJust text\n0Broken\t/x\n\n1Ok\t/y\th\t70\n");
    assert_eq!(items.len(), 2);
    assert_eq!(items[0].itype, ItemType::Info);
    assert_eq!(items[0].display, "Just text");
    assert_eq!(items[0].selector, "");
    assert_eq!(items[0].host, "");
    assert_eq!(items[0].port, 0);
    assert_eq!(items[1].itype, ItemType::Menu);
}

#[test]
fn listing_stops_at_lone_dot() {
    let items = parse("0A\t/a\th\t70\n.\n0B\t/b\th\t70\n");
    assert_eq!(items.len(), 1);
    assert_eq!(items[0].display, "A");
}

#[test]
fn unknown_codes_map_to_unknown() {
    let items = parse("xOdd\t/o\th\t70\n");
    assert_eq!(items[0].itype, ItemType::Unknown);
    assert_eq!(ItemType::from_char('g'), ItemType::Gif);
    assert_eq!(ItemType::Html.to_char(), 'h');
    assert_eq!(ItemType::Image.name(), "Image");
    assert_eq!(ItemType::Image.mime(), "image/jpeg");
    assert_eq!(ItemType::Search.mime(), "text/plain");
}

#[test]
fn document_body_drops_only_the_terminator() {
    assert_eq!(GopherClient::text_body("line one\r\n.x\r\nline three\r\n.\r\n"), "line one\n.x\nline three");
    assert_eq!(GopherClient::text_body("no terminator\n"), "no terminator");
    assert_eq!(GopherClient::text_body(""), "");
}

#[test]
fn request_lines_are_framed_with_crlf() {
    assert_eq!(GopherClient::request_line("/docs"), "/docs\r\n");
    assert_eq!(GopherClient::search_line("/find", "rust"), "/find\trust\r\n");
}
