//! The menu protocol's data and wire format: item kinds, listing lines,
//! request lines, and the framing of text responses.
use vstd::prelude::*;
use vstd::string::StringExecFns;
use crate::text::{
    chars_of, split_lines, split_on, string_of, views, lines, lines_acc, split, split_acc, decimal,
    digit_char, free_of, lemma_lines_crlf, lemma_split_acc_run, lemma_lines_free, lemma_split_free,
};

verus! {

/// Kinds of listing items, each with a one-character wire code.
#[derive(Debug, Clone, Copy, PartialEq, Eq, Structural)]
pub enum ItemType {
    TextFile,
    Menu,
    Search,
    Binary,
    Gif,
    Image,
    Info,
    Html,
    Unknown,
}

/// The wire code of each kind.
pub open spec fn code_of(t: ItemType) -> char {
    match t {
        ItemType::TextFile => '0',
        ItemType::Menu => '1',
        ItemType::Search => '7',
        ItemType::Binary => '9',
        ItemType::Gif => 'g',
        ItemType::Image => 'I',
        ItemType::Info => 'i',
        ItemType::Html => 'h',
        ItemType::Unknown => '?',
    }
}

/// The kind a wire code stands for; any other character is `Unknown`.
pub open spec fn type_of_code(c: char) -> ItemType {
    if c == '0' {
        ItemType::TextFile
    } else if c == '1' {
        ItemType::Menu
    } else if c == '7' {
        ItemType::Search
    } else if c == '9' {
        ItemType::Binary
    } else if c == 'g' {
        ItemType::Gif
    } else if c == 'I' {
        ItemType::Image
    } else if c == 'i' {
        ItemType::Info
    } else if c == 'h' {
        ItemType::Html
    } else {
        ItemType::Unknown
    }
}

impl ItemType {
    /// The kind that a wire code stands for.
    pub fn from_char(c: char) -> (r: ItemType)
        ensures
            r == type_of_code(c),
    {
        match c {
            '0' => ItemType::TextFile,
            '1' => ItemType::Menu,
            '7' => ItemType::Search,
            '9' => ItemType::Binary,
            'g' => ItemType::Gif,
            'I' => ItemType::Image,
            'i' => ItemType::Info,
            'h' => ItemType::Html,
            _ => ItemType::Unknown,
        }
    }

    pub fn to_char(&self) -> (r: char)
        ensures
            r == code_of(*self),
    {
        match self {
            ItemType::TextFile => '0',
            ItemType::Menu => '1',
            ItemType::Search => '7',
            ItemType::Binary => '9',
            ItemType::Gif => 'g',
            ItemType::Image => 'I',
            ItemType::Info => 'i',
            ItemType::Html => 'h',
            ItemType::Unknown => '?',
        }
    }

    pub fn name(&self) -> (r: &'static str)
        ensures
            r@ == name_of(*self),
    {
        match self {
            ItemType::TextFile => "TextFile",
            ItemType::Menu => "Menu",
            ItemType::Search => "Search",
            ItemType::Binary => "Binary",
            ItemType::Gif => "Gif",
            ItemType::Image => "Image",
            ItemType::Info => "Info",
            ItemType::Html => "Html",
            ItemType::Unknown => "Unknown",
        }
    }

    pub fn mime(&self) -> (r: &'static str)
        ensures
            r@ == mime_of(*self),
    {
        match self {
            ItemType::TextFile => "text/plain",
            ItemType::Menu => "application/x-gopher-menu",
            ItemType::Binary => "application/octet-stream",
            ItemType::Gif => "image/gif",
            ItemType::Image => "image/jpeg",
            ItemType::Html => "text/html",
            _ => "text/plain",
        }
    }
}

/// The readable name of each kind.
pub open spec fn name_of(t: ItemType) -> Seq<char> {
    match t {
        ItemType::TextFile => "TextFile"@,
        ItemType::Menu => "Menu"@,
        ItemType::Search => "Search"@,
        ItemType::Binary => "Binary"@,
        ItemType::Gif => "Gif"@,
        ItemType::Image => "Image"@,
        ItemType::Info => "Info"@,
        ItemType::Html => "Html"@,
        ItemType::Unknown => "Unknown"@,
    }
}

/// The MIME type of each kind.
pub open spec fn mime_of(t: ItemType) -> Seq<char> {
    match t {
        ItemType::TextFile => "text/plain"@,
        ItemType::Menu => "application/x-gopher-menu"@,
        ItemType::Binary => "application/octet-stream"@,
        ItemType::Gif => "image/gif"@,
        ItemType::Image => "image/jpeg"@,
        ItemType::Html => "text/html"@,
        _ => "text/plain"@,
    }
}

/// One line of a listing.
#[derive(Debug)]
pub struct MenuItem {
    pub itype: ItemType,
    pub display: String,
    pub selector: String,
    pub host: String,
    pub port: u16,
}

/// A listing line as plain values.
pub struct MenuItemView {
    pub itype: ItemType,
    pub display: Seq<char>,
    pub selector: Seq<char>,
    pub host: Seq<char>,
    pub port: u16,
}

impl View for MenuItem {
    type V = MenuItemView;

    open spec fn view(&self) -> MenuItemView {
        MenuItemView {
            itype: self.itype,
            display: self.display@,
            selector: self.selector@,
            host: self.host@,
            port: self.port,
        }
    }
}

/// The views of a sequence of items.
pub open spec fn item_views(v: Seq<MenuItem>) -> Seq<MenuItemView> {
    Seq::new(v.len(), |i: int| v[i]@)
}

impl MenuItem {
    /// A copy with the same fields.
    pub fn duplicate(&self) -> (r: MenuItem)
        ensures
            r@ == self@,
    {
        MenuItem {
            itype: self.itype,
            display: self.display.clone(),
            selector: self.selector.clone(),
            host: self.host.clone(),
            port: self.port,
        }
    }
}

/// A copy of a sequence of items.
pub fn duplicate_items(v: &Vec<MenuItem>) -> (r: Vec<MenuItem>)
    ensures
        item_views(r@) == item_views(v@),
{
    let mut r: Vec<MenuItem> = Vec::new();
    let mut i: usize = 0;
    while i < v.len()
        invariant
            i <= v.len(),
            item_views(r@) == item_views(v@).take(i as int),
        decreases v.len() - i,
    {
        let ghost before = item_views(r@);
        r.push(v[i].duplicate());
        assert(item_views(r@) =~= before.push(v@[i as int]@));
        i = i + 1;
        assert(item_views(r@) =~= item_views(v@).take(i as int));
    }
    assert(item_views(v@).take(i as int) =~= item_views(v@));
    r
}

/// Failures of the wire transport. A timeout stands apart from other
/// input/output failures so that callers can tell them apart.
#[derive(Debug)]
pub enum GopherError {
    Io(String),
    Timeout,
}

/// The port used when a listing line names none, or one that is not a number.
pub const DEFAULT_PORT: u16 = 70;

/// The value of a string of decimal digits.
pub open spec fn digits_value(s: Seq<char>) -> nat
    decreases s.len(),
{
    if s.len() == 0 {
        0
    } else {
        digits_value(s.drop_last()) * 10 + ((s.last() as nat) - ('0' as nat)) as nat
    }
}

pub open spec fn is_digit(c: char) -> bool {
    '0' <= c <= '9'
}

pub open spec fn all_digits(s: Seq<char>) -> bool {
    forall|i: int| 0 <= i < s.len() ==> is_digit(#[trigger] s[i])
}

/// The digits of a port number: an optional leading `+`, then the rest.
pub open spec fn port_digits(s: Seq<char>) -> Seq<char> {
    if s.len() > 0 && s[0] == '+' {
        s.drop_first()
    } else {
        s
    }
}

/// A port number as `u16::from_str` reads one, if it is one.
pub open spec fn port_number(s: Seq<char>) -> Option<u16> {
    let d = port_digits(s);
    if d.len() > 0 && all_digits(d) && digits_value(d) <= 0xffff {
        Some(digits_value(d) as u16)
    } else {
        None
    }
}

/// The port that a listing line's fourth field gives.
pub open spec fn port_or_default(s: Seq<char>) -> u16 {
    match port_number(s) {
        Some(p) => p,
        None => DEFAULT_PORT,
    }
}

proof fn lemma_digits_value_grows(s: Seq<char>, i: int, j: int)
    requires
        0 <= i <= j <= s.len(),
        all_digits(s),
    ensures
        digits_value(s.take(i)) <= digits_value(s.take(j)),
    decreases j - i,
{
    if i < j {
        lemma_digits_value_grows(s, i, j - 1);
        assert(s.take(j).drop_last() =~= s.take(j - 1));
    }
}

/// Reads a port number; `None` where `u16::from_str` would fail.
pub fn parse_port(s: &Vec<char>) -> (r: Option<u16>)
    ensures
        r == port_number(s@),
{
    let mut i: usize = 0;
    if s.len() > 0 && s[0] == '+' {
        i = 1;
    }
    let ghost d = port_digits(s@);
    assert(d =~= s@.skip(i as int));
    if i >= s.len() {
        return None;
    }
    let start = i;
    let mut v: u32 = 0;
    while i < s.len()
        invariant
            start <= i <= s.len(),
            start < s.len(),
            d == s@.skip(start as int),
            d == port_digits(s@),
            forall|k: int| 0 <= k < i - start ==> is_digit(#[trigger] d[k]),
            v as nat == digits_value(d.take(i - start)),
            v <= 0xffff,
        decreases s.len() - i,
    {
        let c = s[i];
        if !('0' <= c && c <= '9') {
            assert(!is_digit(d[i - start]));
            assert(!all_digits(d));
            return None;
        }
        let dv = (c as u32) - ('0' as u32);
        assert(d.take(i - start + 1).drop_last() =~= d.take(i - start));
        v = v * 10 + dv;
        i = i + 1;
        if v > 0xffff {
            proof {
                if all_digits(d) {
                    lemma_digits_value_grows(d, i - start, d.len() as int);
                    assert(d.take(d.len() as int) =~= d);
                }
            }
            return None;
        }
    }
    assert(d.take(i - start) =~= d);
    Some(v as u16)
}

/// The item that a non-empty listing line gives, if any: the first character
/// is the kind, the rest holds tab-separated fields. A line with fewer than
/// three fields gives an item only when it is an info line.
pub open spec fn line_item(l: Seq<char>) -> Option<MenuItemView> {
    let t = type_of_code(l[0]);
    let f = split(l.drop_first(), '\t');
    if f.len() >= 3 {
        Some(
            MenuItemView {
                itype: t,
                display: f[0],
                selector: f[1],
                host: f[2],
                port: if f.len() >= 4 {
                    port_or_default(f[3])
                } else {
                    DEFAULT_PORT
                },
            },
        )
    } else if t == ItemType::Info {
        Some(MenuItemView { itype: t, display: f[0], selector: seq![], host: seq![], port: 0 })
    } else {
        None
    }
}

pub open spec fn option_seq<A>(o: Option<A>) -> Seq<A> {
    match o {
        Some(a) => seq![a],
        None => seq![],
    }
}

/// The items of a sequence of listing lines: reading stops at a line that is
/// exactly `.`, and empty lines are skipped.
pub open spec fn items_of_lines(ls: Seq<Seq<char>>) -> Seq<MenuItemView>
    decreases ls.len(),
{
    if ls.len() == 0 {
        seq![]
    } else if ls[0] == seq!['.'] {
        seq![]
    } else if ls[0].len() == 0 {
        items_of_lines(ls.drop_first())
    } else {
        option_seq(line_item(ls[0])) + items_of_lines(ls.drop_first())
    }
}

/// The items of a listing text.
pub open spec fn listing_items(s: Seq<char>) -> Seq<MenuItemView> {
    items_of_lines(lines(s))
}

/// Parses one non-empty listing line.
pub fn parse_line(l: &Vec<char>) -> (r: Option<MenuItem>)
    requires
        l@.len() > 0,
    ensures
        match r {
            Some(item) => line_item(l@) == Some(item@),
            None => line_item(l@) is None,
        },
{
    let t = ItemType::from_char(l[0]);
    let mut rest: Vec<char> = Vec::new();
    let mut i: usize = 1;
    while i < l.len()
        invariant
            1 <= i <= l.len(),
            rest@ == l@.subrange(1, i as int),
        decreases l.len() - i,
    {
        rest.push(l[i]);
        i = i + 1;
        assert(rest@ =~= l@.subrange(1, i as int));
    }
    assert(rest@ =~= l@.drop_first());
    let f = split_on(&rest, '\t');
    assert(f@[0]@ == views(f@)[0]);
    if f.len() >= 3 {
        assert(f@[1]@ == views(f@)[1]);
        assert(f@[2]@ == views(f@)[2]);
        let port = if f.len() >= 4 {
            assert(f@[3]@ == views(f@)[3]);
            match parse_port(&f[3]) {
                Some(p) => p,
                None => DEFAULT_PORT,
            }
        } else {
            DEFAULT_PORT
        };
        Some(
            MenuItem {
                itype: t,
                display: string_of(&f[0]),
                selector: string_of(&f[1]),
                host: string_of(&f[2]),
                port,
            },
        )
    } else if t == ItemType::Info {
        Some(
            MenuItem {
                itype: t,
                display: string_of(&f[0]),
                selector: String::new(),
                host: String::new(),
                port: 0,
            },
        )
    } else {
        None
    }
}

proof fn lemma_lines_concat(s: Seq<char>, t: Seq<char>, cur: Seq<char>)
    requires
        s.len() > 0,
        s.last() == '\n',
    ensures
        crate::text::lines_acc(s + t, cur) == crate::text::lines_acc(s, cur) + crate::text::lines_acc(
            t,
            seq![],
        ),
    decreases s.len(),
{
    assert((s + t).drop_first() =~= s.drop_first() + t);
    assert((s + t)[0] == s[0]);
    if s.len() == 1 {
        assert(s.drop_first() =~= Seq::<char>::empty());
        assert(s.drop_first() + t =~= t);
        assert(crate::text::lines_acc(s.drop_first(), seq![]) =~= Seq::<Seq<char>>::empty());
        assert(crate::text::lines_acc(s, cur) =~= seq![crate::text::strip_cr(cur)]);
    } else if s[0] == '\n' {
        lemma_lines_concat(s.drop_first(), t, seq![]);
    } else {
        lemma_lines_concat(s.drop_first(), t, cur.push(s[0]));
    }
}

proof fn lemma_items_with_terminator(ls: Seq<Seq<char>>)
    ensures
        items_of_lines(ls + seq![seq!['.']]) == items_of_lines(ls),
    decreases ls.len(),
{
    let x = seq![seq!['.']];
    if ls.len() == 0 {
        assert(ls + x =~= x);
    } else {
        assert((ls + x).drop_first() =~= ls.drop_first() + x);
        assert((ls + x)[0] == ls[0]);
        lemma_items_with_terminator(ls.drop_first());
    }
}

/// A listing text that ends with a line break parses to the same items
/// with or without a final terminator line `.`.
pub proof fn lemma_trailing_terminator(s: Seq<char>)
    requires
        s.len() > 0,
        s.last() == '\n',
    ensures
        listing_items(s + seq!['.', '\r', '\n']) == listing_items(s),
{
    let t = seq!['.', '\r', '\n'];
    lemma_lines_concat(s, t, seq![]);
    let ls = crate::text::lines_acc(t, seq![]);
    assert(t.drop_first() =~= seq!['\r', '\n']);
    assert(t.drop_first().drop_first() =~= seq!['\n']);
    assert(t.drop_first().drop_first().drop_first() =~= Seq::<char>::empty());
    assert(seq!['.'].push('\r') =~= seq!['.', '\r']);
    assert(crate::text::strip_cr(seq!['.', '\r']) =~= seq!['.']);
    assert(crate::text::lines_acc(Seq::<char>::empty(), seq![]) =~= Seq::<Seq<char>>::empty());
    let t1 = t.drop_first();
    let t2 = t1.drop_first();
    assert(seq![].push('.') =~= seq!['.']);
    assert(crate::text::lines_acc(t, seq![]) == crate::text::lines_acc(t1, seq![].push('.')));
    assert(crate::text::lines_acc(t1, seq!['.']) == crate::text::lines_acc(t2, seq!['.'].push('\r')));
    assert(crate::text::lines_acc(t2, seq!['.', '\r']) == seq![crate::text::strip_cr(seq!['.', '\r'])]
        + crate::text::lines_acc(t2.drop_first(), seq![]));
    assert(ls =~= seq![seq!['.']]);
    lemma_items_with_terminator(lines(s));
}

/// A listing line as the wire format writes it, without its line break:
/// the kind's code, then display text, selector, host and port separated
/// by tabs.
pub open spec fn render_line(i: MenuItemView) -> Seq<char> {
    seq![code_of(i.itype)] + i.display + seq!['\t'] + i.selector + seq!['\t'] + i.host + seq!['\t']
        + decimal(i.port as nat)
}

/// Items written as a listing, each line ended by `\r\n`.
pub open spec fn render_listing(v: Seq<MenuItemView>) -> Seq<char>
    decreases v.len(),
{
    if v.len() == 0 {
        seq![]
    } else {
        render_line(v[0]) + seq!['\r', '\n'] + render_listing(v.drop_first())
    }
}

/// An item whose text fields hold no tab and no line break.
pub open spec fn clean_item(i: MenuItemView) -> bool {
    &&& free_of(i.display, '\t') && free_of(i.display, '\n')
    &&& free_of(i.selector, '\t') && free_of(i.selector, '\n')
    &&& free_of(i.host, '\t') && free_of(i.host, '\n')
}

proof fn lemma_type_code(t: ItemType)
    ensures
        type_of_code(code_of(t)) == t,
{
}

proof fn lemma_digit_char(d: nat)
    requires
        d < 10,
    ensures
        is_digit(digit_char(d)),
        (digit_char(d) as nat) - ('0' as nat) == d,
{
    if d == 0 {
    } else if d == 1 {
    } else if d == 2 {
    } else if d == 3 {
    } else if d == 4 {
    } else if d == 5 {
    } else if d == 6 {
    } else if d == 7 {
    } else if d == 8 {
    } else {
    }
}

proof fn lemma_decimal_digits(n: nat)
    ensures
        decimal(n).len() > 0,
        all_digits(decimal(n)),
        digits_value(decimal(n)) == n,
    decreases n,
{
    if n < 10 {
        let d = decimal(n);
        lemma_digit_char(n);
        assert(d.drop_last() =~= Seq::<char>::empty());
        assert(d.last() == digit_char(n));
        assert(d[0] == digit_char(n));
        assert(digits_value(d.drop_last()) == 0);
        assert(digits_value(d) == digits_value(d.drop_last()) * 10 + ((d.last() as nat) - ('0' as nat)) as nat);
    } else {
        lemma_decimal_digits(n / 10);
        lemma_digit_char(n % 10);
        let d = decimal(n);
        assert(d.drop_last() == decimal(n / 10));
        assert(d.last() == digit_char(n % 10));
        assert(digits_value(d) == digits_value(d.drop_last()) * 10 + ((d.last() as nat) - ('0' as nat)) as nat);
        assert(digits_value(d) == (n / 10) * 10 + n % 10);
        assert(n == (n / 10) * 10 + n % 10) by {
            vstd::arithmetic::div_mod::lemma_fundamental_div_mod(n as int, 10);
        };
        assert forall|i: int| 0 <= i < d.len() implies is_digit(#[trigger] d[i]) by {
            if i < d.len() - 1 {
                assert(d[i] == decimal(n / 10)[i]);
            }
        };
    }
}

proof fn lemma_decimal_port(p: u16)
    ensures
        port_or_default(decimal(p as nat)) == p,
        free_of(decimal(p as nat), '\t'),
        free_of(decimal(p as nat), '\n'),
{
    lemma_decimal_digits(p as nat);
    let d = decimal(p as nat);
    assert(is_digit(d[0]));
    assert(port_digits(d) == d);
    assert forall|i: int| 0 <= i < d.len() implies d[i] != '\t' && d[i] != '\n' by {
        assert(is_digit(d[i]));
    };
}

proof fn lemma_line_item_render(i: MenuItemView)
    requires
        clean_item(i),
    ensures
        render_line(i).len() > 0,
        render_line(i) != seq!['.'],
        free_of(render_line(i), '\n'),
        line_item(render_line(i)) == Some(i),
{
    let l = render_line(i);
    let dec = decimal(i.port as nat);
    lemma_decimal_port(i.port);
    lemma_type_code(i.itype);
    let rest = i.display + seq!['\t'] + i.selector + seq!['\t'] + i.host + seq!['\t'] + dec;
    assert(l =~= seq![code_of(i.itype)] + rest);
    assert(l.drop_first() =~= rest);
    assert(l[0] == code_of(i.itype));
    assert(l.len() >= 4);
    let t = seq!['\t'];
    let r1 = t + i.selector + t + i.host + t + dec;
    let r2 = t + i.host + t + dec;
    let r3 = t + dec;
    assert(rest =~= i.display + r1);
    lemma_split_acc_run(i.display, r1, '\t', seq![]);
    assert(Seq::<char>::empty() + i.display =~= i.display);
    assert(r1[0] == '\t');
    assert(r1.drop_first() =~= i.selector + r2);
    lemma_split_acc_run(i.selector, r2, '\t', seq![]);
    assert(Seq::<char>::empty() + i.selector =~= i.selector);
    assert(r2[0] == '\t');
    assert(r2.drop_first() =~= i.host + r3);
    lemma_split_acc_run(i.host, r3, '\t', seq![]);
    assert(Seq::<char>::empty() + i.host =~= i.host);
    assert(r3[0] == '\t');
    assert(r3.drop_first() =~= dec + Seq::<char>::empty());
    lemma_split_acc_run(dec, Seq::<char>::empty(), '\t', seq![]);
    assert(Seq::<char>::empty() + dec =~= dec);
    let f = split(rest, '\t');
    assert(split_acc(r1, '\t', i.display) == seq![i.display] + split_acc(i.selector + r2, '\t', seq![]));
    assert(split_acc(r2, '\t', i.selector) == seq![i.selector] + split_acc(i.host + r3, '\t', seq![]));
    assert(split_acc(r3, '\t', i.host) == seq![i.host] + split_acc(dec + Seq::<char>::empty(), '\t', seq![]));
    assert(split_acc(Seq::<char>::empty(), '\t', dec) == seq![dec]);
    assert(f =~= seq![i.display, i.selector, i.host, dec]);
    assert forall|k: int| 0 <= k < l.len() implies l[k] != '\n' by {
        if k > 0 {
            assert(l[k] == rest[k - 1]);
            let a = i.display;
            let b = i.selector;
            let c = i.host;
            if k - 1 < a.len() {
                assert(rest[k - 1] == a[k - 1]);
            } else if k - 1 == a.len() {
            } else if k - 1 < a.len() + 1 + b.len() {
                assert(rest[k - 1] == b[k - 2 - a.len()]);
            } else if k - 1 == a.len() + 1 + b.len() {
            } else if k - 1 < a.len() + 2 + b.len() + c.len() {
                assert(rest[k - 1] == c[k - 3 - a.len() - b.len()]);
            } else if k - 1 == a.len() + 2 + b.len() + c.len() {
            } else {
                assert(rest[k - 1] == dec[k - 4 - a.len() - b.len() - c.len()]);
            }
        }
    };
}

/// Writing items as a listing and reading it back gives the items, where
/// their text fields hold no tab and no line break.
pub proof fn lemma_render_then_parse(v: Seq<MenuItemView>)
    requires
        forall|k: int| 0 <= k < v.len() ==> clean_item(#[trigger] v[k]),
    ensures
        listing_items(render_listing(v)) == v,
    decreases v.len(),
{
    lemma_render_lines(v);
    lemma_items_of_rendered(v);
}

proof fn lemma_render_lines(v: Seq<MenuItemView>)
    requires
        forall|k: int| 0 <= k < v.len() ==> clean_item(#[trigger] v[k]),
    ensures
        lines(render_listing(v)) == Seq::new(v.len(), |k: int| render_line(v[k])),
    decreases v.len(),
{
    if v.len() == 0 {
        assert(lines(render_listing(v)) =~= Seq::<Seq<char>>::empty());
    } else {
        assert(clean_item(v[0]));
        lemma_line_item_render(v[0]);
        let rest = v.drop_first();
        assert forall|k: int| 0 <= k < rest.len() implies clean_item(#[trigger] rest[k]) by {
            assert(rest[k] == v[k + 1]);
        };
        lemma_render_lines(rest);
        lemma_lines_crlf(render_line(v[0]), render_listing(rest));
        assert(Seq::new(v.len(), |k: int| render_line(v[k])) =~= seq![render_line(v[0])] + Seq::new(
            rest.len(),
            |k: int| render_line(rest[k]),
        ));
    }
}

proof fn lemma_items_of_rendered(v: Seq<MenuItemView>)
    requires
        forall|k: int| 0 <= k < v.len() ==> clean_item(#[trigger] v[k]),
    ensures
        items_of_lines(Seq::new(v.len(), |k: int| render_line(v[k]))) == v,
    decreases v.len(),
{
    let ls = Seq::new(v.len(), |k: int| render_line(v[k]));
    if v.len() == 0 {
        assert(items_of_lines(ls) =~= v);
    } else {
        assert(clean_item(v[0]));
        lemma_line_item_render(v[0]);
        let rest = v.drop_first();
        assert forall|k: int| 0 <= k < rest.len() implies clean_item(#[trigger] rest[k]) by {
            assert(rest[k] == v[k + 1]);
        };
        lemma_items_of_rendered(rest);
        assert(ls.drop_first() =~= Seq::new(rest.len(), |k: int| render_line(rest[k])));
        assert(ls[0] == render_line(v[0]));
        assert(items_of_lines(ls) == seq![v[0]] + items_of_lines(ls.drop_first()));
        assert(seq![v[0]] + rest =~= v);
    }
}

proof fn lemma_parsed_clean(ls: Seq<Seq<char>>)
    requires
        forall|k: int| 0 <= k < ls.len() ==> free_of(#[trigger] ls[k], '\n'),
    ensures
        forall|k: int| 0 <= k < items_of_lines(ls).len() ==> clean_item(#[trigger] items_of_lines(ls)[k]),
    decreases ls.len(),
{
    if ls.len() > 0 {
        let rest = ls.drop_first();
        assert forall|k: int| 0 <= k < rest.len() implies free_of(#[trigger] rest[k], '\n') by {
            assert(rest[k] == ls[k + 1]);
        };
        lemma_parsed_clean(rest);
        if ls[0] != seq!['.'] && ls[0].len() > 0 {
            let l = ls[0];
            assert(free_of(l, '\n'));
            assert forall|i: int| 0 <= i < l.drop_first().len() implies l.drop_first()[i] != '\n' by {
                assert(l.drop_first()[i] == l[i + 1]);
            };
            lemma_split_free(l.drop_first(), '\t', seq![], '\n');
            let f = split(l.drop_first(), '\t');
            match line_item(l) {
                Some(it) => {
                    assert(f.len() >= 1);
                    assert(free_of(f[0], '\t') && free_of(f[0], '\n'));
                    if f.len() >= 3 {
                        assert(free_of(f[1], '\t') && free_of(f[1], '\n'));
                        assert(free_of(f[2], '\t') && free_of(f[2], '\n'));
                    }
                    assert(clean_item(it));
                    let all = items_of_lines(ls);
                    assert(all == seq![it] + items_of_lines(rest));
                    assert forall|k: int| 0 <= k < all.len() implies clean_item(#[trigger] all[k]) by {
                        if k > 0 {
                            assert(all[k] == items_of_lines(rest)[k - 1]);
                        }
                    };
                },
                None => {
                    assert(items_of_lines(ls) == Seq::<MenuItemView>::empty() + items_of_lines(rest));
                    assert(Seq::<MenuItemView>::empty() + items_of_lines(rest) =~= items_of_lines(rest));
                },
            }
        }
    }
}

/// Parsing is idempotent: a parsed listing, written out again, parses to
/// the same items.
pub proof fn lemma_parse_idempotent(s: Seq<char>)
    ensures
        listing_items(render_listing(listing_items(s))) == listing_items(s),
{
    lemma_lines_free(s, seq![]);
    lemma_parsed_clean(lines(s));
    lemma_render_then_parse(listing_items(s));
}

/// Lines joined with `\n` between them.
pub open spec fn join_lines(ls: Seq<Seq<char>>) -> Seq<char>
    decreases ls.len(),
{
    if ls.len() == 0 {
        seq![]
    } else if ls.len() == 1 {
        ls[0]
    } else {
        join_lines(ls.drop_last()) + seq!['\n'] + ls.last()
    }
}

/// The lines of a document body: a last line that is exactly `.` is the
/// protocol's terminator and is dropped; all other lines stay as they are.
pub open spec fn body_lines(s: Seq<char>) -> Seq<Seq<char>> {
    let ls = lines(s);
    if ls.len() > 0 && ls.last() == seq!['.'] {
        ls.drop_last()
    } else {
        ls
    }
}

/// The text of a document response.
pub open spec fn document_text(s: Seq<char>) -> Seq<char> {
    join_lines(body_lines(s))
}

/// Client of the menu protocol. The transport is the caller's; this type
/// frames requests and reads responses.
pub struct GopherClient;

impl GopherClient {
    /// Parses a listing response into its items.
    pub fn parse_menu_lines(content: &str) -> (r: Vec<MenuItem>)
        ensures
            item_views(r@) == listing_items(content@),
    {
        let cs = chars_of(content);
        let ls = split_lines(&cs);
        let ghost lv = views(ls@);
        let mut out: Vec<MenuItem> = Vec::new();
        let mut i: usize = 0;
        assert(lv.skip(0) =~= lv);
        while i < ls.len()
            invariant_except_break
                i <= ls.len(),
                lv == views(ls@),
                lv == lines(content@),
                item_views(out@) + items_of_lines(lv.skip(i as int)) == listing_items(content@),
            ensures
                item_views(out@) == listing_items(content@),
            decreases ls.len() - i,
        {
            let line = &ls[i];
            assert(line@ == lv[i as int]);
            assert(lv.skip(i as int).drop_first() =~= lv.skip(i as int + 1));
            if line.len() == 1 && line[0] == '.' {
                assert(lv[i as int] =~= seq!['.']);
                assert(item_views(out@) + items_of_lines(lv.skip(i as int)) =~= item_views(out@));
                break;
            }
            if line.len() > 0 {
                assert(lv[i as int] != seq!['.']) by {
                    if line.len() == 1 {
                        assert(lv[i as int][0] != '.');
                    }
                };
                let ghost before = item_views(out@);
                match parse_line(line) {
                    Some(item) => {
                        out.push(item);
                        assert(item_views(out@) =~= before + option_seq(line_item(lv[i as int])));
                    },
                    None => {
                        assert(item_views(out@) =~= before + option_seq(line_item(lv[i as int])));
                    },
                }
                assert(item_views(out@) + items_of_lines(lv.skip(i as int + 1)) =~= before
                    + items_of_lines(lv.skip(i as int)));
            }
            i = i + 1;
        }
        out
    }

    /// The text of a document response, without its terminator line.
    pub fn text_body(content: &str) -> (r: String)
        ensures
            r@ == document_text(content@),
    {
        let cs = chars_of(content);
        let ls = split_lines(&cs);
        let ghost lv = views(ls@);
        let mut n = ls.len();
        if n > 0 && ls[n - 1].len() == 1 && ls[n - 1][0] == '.' {
            assert(lv.last() =~= seq!['.']);
            n = n - 1;
        } else if n > 0 {
            assert(ls[n - 1]@ == lv.last());
            assert(lv.last() != seq!['.']) by {
                if ls[n - 1].len() == 1 {
                    assert(lv.last()[0] != '.');
                }
            };
        }
        let ghost body = body_lines(content@);
        assert(body =~= lv.take(n as int));
        let mut r = String::new();
        let mut i: usize = 0;
        while i < n
            invariant
                i <= n <= ls.len(),
                lv == views(ls@),
                body == lv.take(n as int),
                r@ == join_lines(body.take(i as int)),
            decreases n - i,
        {
            let piece = string_of(&ls[i]);
            assert(piece@ == body[i as int]);
            assert(body.take(i as int + 1).drop_last() =~= body.take(i as int));
            let ghost prev = r@;
            if i > 0 {
                r.append("\n");
                proof {
                    reveal_strlit("\n");
                }
                assert(r@ =~= prev + seq!['\n']);
            }
            r.append(piece.as_str());
            if i == 0 {
                assert(body.take(1) =~= seq![body[0]]);
                assert(r@ =~= body[0]);
            } else {
                assert(body.take(i as int + 1).last() == body[i as int]);
                assert(r@ =~= join_lines(body.take(i as int)) + seq!['\n'] + body[i as int]);
            }
            i = i + 1;
        }
        assert(body.take(n as int) =~= body);
        r
    }

    /// The request line that asks for the resource at `selector`.
    pub fn request_line(selector: &str) -> (r: String)
        ensures
            r@ == selector@ + "\r\n"@,
    {
        let mut r = String::from_str(selector);
        r.append("\r\n");
        r
    }

    /// The request line that sends `query` to the search endpoint at `selector`.
    pub fn search_line(selector: &str, query: &str) -> (r: String)
        ensures
            r@ == selector@ + "\t"@ + query@ + "\r\n"@,
    {
        let mut r = String::from_str(selector);
        r.append("\t");
        r.append(query);
        r.append("\r\n");
        r
    }
}

} // verus!
