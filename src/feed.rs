//! How the feed adapter fills its namespace from a feed: a document per
//! entry, a listing per category (ordered by a normalized slug), and a
//! root listing of both.
use vstd::prelude::*;
use vstd::string::StringExecFns;
use crate::gopher::{ItemType, MenuItem, MenuItemView, item_views, join_lines};
use crate::graph::info_line;
use crate::sources::RssAdapter;
use crate::store::{LocalStore, ContentNode, NodeView, StoreView, store_put, store_register};
use crate::text::{
    chars_of, decimal, decimal_string, insert_sorted, lemma_is_sorted_of, lower_of, lowercase,
    push_char, sorted_of, sorted_texts, string_views, text_eq, concat, copy_opt,
};

verus! {

/// A category of an entry: its term and, where given, a readable label.
#[derive(Debug)]
pub struct FeedCategory {
    pub term: String,
    pub label: Option<String>,
}

/// One entry of a feed, with its dates already written as text.
#[derive(Debug)]
pub struct FeedEntry {
    pub title: Option<String>,
    pub published: Option<String>,
    pub updated: Option<String>,
    pub content: Option<String>,
    pub summary: Option<String>,
    pub links: Vec<String>,
    pub categories: Vec<FeedCategory>,
}

/// A feed as plain values.
#[derive(Debug)]
pub struct Feed {
    pub title: Option<String>,
    pub entries: Vec<FeedEntry>,
}

pub open spec fn entry_title(e: FeedEntry) -> Seq<char> {
    match e.title {
        Some(t) => t@,
        None => "Untitled"@,
    }
}

/// The date line of an entry: its publication date, else its update date.
pub open spec fn date_lines(e: FeedEntry) -> Seq<Seq<char>> {
    match e.published {
        Some(p) => seq!["Published: "@ + p@],
        None => match e.updated {
            Some(u) => seq!["Published: "@ + u@],
            None => seq![],
        },
    }
}

/// The body of an entry: its content, else its summary.
pub open spec fn entry_body(e: FeedEntry) -> Seq<char> {
    match e.content {
        Some(c) => c@,
        None => match e.summary {
            Some(s) => s@,
            None => "No content available"@,
        },
    }
}

pub open spec fn link_lines(e: FeedEntry) -> Seq<Seq<char>> {
    if e.links@.len() == 0 {
        seq![]
    } else {
        seq![seq![]] + Seq::new(e.links@.len(), |k: int| "Link: "@ + e.links@[k]@)
    }
}

/// An entry's document: title, date, an empty line, the body, then its links.
pub open spec fn entry_doc(e: FeedEntry) -> Seq<char> {
    join_lines(seq![entry_title(e)] + date_lines(e) + seq![seq![], entry_body(e)] + link_lines(e))
}

pub open spec fn entry_selector(i: nat) -> Seq<char> {
    "/entry/"@ + decimal(i)
}

pub open spec fn category_label(c: FeedCategory) -> Seq<char> {
    match c.label {
        Some(l) => l@,
        None => c.term@,
    }
}

/// `s` with each space replaced by `-`.
pub open spec fn dash_spaces(s: Seq<char>) -> Seq<char> {
    Seq::new(s.len(), |i: int| if s[i] == ' ' { '-' } else { s[i] })
}

/// A category's slug: its label in lower case with spaces as dashes.
pub open spec fn slug_of(label: Seq<char>) -> Seq<char> {
    dash_spaces(lower_of(label))
}

/// An entry's membership in one of its categories.
pub struct CategoryRef {
    pub slug: String,
    pub label: String,
    pub index: usize,
    pub title: String,
}

pub struct CategoryRefView {
    pub slug: Seq<char>,
    pub label: Seq<char>,
    pub index: nat,
    pub title: Seq<char>,
}

impl View for CategoryRef {
    type V = CategoryRefView;

    open spec fn view(&self) -> CategoryRefView {
        CategoryRefView {
            slug: self.slug@,
            label: self.label@,
            index: self.index as nat,
            title: self.title@,
        }
    }
}

pub open spec fn ref_views(v: Seq<CategoryRef>) -> Seq<CategoryRefView> {
    Seq::new(v.len(), |i: int| v[i]@)
}

pub open spec fn entry_refs(e: FeedEntry, i: nat) -> Seq<CategoryRefView> {
    Seq::new(
        e.categories@.len(),
        |k: int|
            CategoryRefView {
                slug: slug_of(category_label(e.categories@[k])),
                label: category_label(e.categories@[k]),
                index: i,
                title: entry_title(e),
            },
    )
}

/// Every entry's memberships, entry by entry in order.
pub open spec fn feed_refs(es: Seq<FeedEntry>) -> Seq<CategoryRefView>
    decreases es.len(),
{
    if es.len() == 0 {
        seq![]
    } else {
        feed_refs(es.drop_last()) + entry_refs(es.last(), (es.len() - 1) as nat)
    }
}

pub open spec fn ref_slugs(rs: Seq<CategoryRefView>) -> Set<Seq<char>> {
    Seq::new(rs.len(), |i: int| rs[i].slug).to_set()
}

/// The label a category is shown with: that of its first membership.
pub open spec fn first_label(rs: Seq<CategoryRefView>, slug: Seq<char>) -> Seq<char>
    decreases rs.len(),
{
    if rs.len() == 0 {
        seq![]
    } else if rs[0].slug == slug {
        rs[0].label
    } else {
        first_label(rs.drop_first(), slug)
    }
}

/// The memberships of a category, in order.
pub open spec fn members(rs: Seq<CategoryRefView>, slug: Seq<char>) -> Seq<CategoryRefView>
    decreases rs.len(),
{
    if rs.len() == 0 {
        seq![]
    } else if rs.last().slug == slug {
        members(rs.drop_last(), slug).push(rs.last())
    } else {
        members(rs.drop_last(), slug)
    }
}

pub open spec fn entry_item(ns: Seq<char>, title: Seq<char>, i: nat) -> MenuItemView {
    MenuItemView { itype: ItemType::TextFile, display: title, selector: entry_selector(i), host: ns, port: 0 }
}

/// A category's listing: a heading, a rule, then its entries.
pub open spec fn category_listing(ns: Seq<char>, slug: Seq<char>, rs: Seq<CategoryRefView>) -> Seq<MenuItemView> {
    let m = members(rs, slug);
    seq![info_line("Category: "@ + first_label(rs, slug)), info_line("---"@)] + Seq::new(
        m.len(),
        |k: int| entry_item(ns, m[k].title, m[k].index),
    )
}

/// The root listing: the feed's title, a rule, every entry, then every
/// category in slug order.
pub open spec fn feed_root(ns: Seq<char>, f: Feed, slugs: Seq<Seq<char>>, rs: Seq<CategoryRefView>) -> Seq<MenuItemView> {
    seq![
        info_line(
            match f.title {
                Some(t) => t@,
                None => "RSS Feed"@,
            },
        ),
        info_line("---"@),
    ] + Seq::new(f.entries@.len(), |i: int| entry_item(ns, entry_title(f.entries@[i]), i as nat))
        + Seq::new(
        slugs.len(),
        |k: int|
            MenuItemView {
                itype: ItemType::Menu,
                display: first_label(rs, slugs[k]),
                selector: "/category/"@ + slugs[k],
                host: ns,
                port: 0,
            },
    )
}

/// The store after the first `n` entries' documents are written.
pub open spec fn with_entries(st: StoreView, ns: Seq<char>, es: Seq<FeedEntry>, n: nat) -> StoreView
    decreases n,
{
    if n == 0 {
        st
    } else {
        store_put(
            with_entries(st, ns, es, (n - 1) as nat),
            ns,
            entry_selector((n - 1) as nat),
            NodeView::Document(entry_doc(es[n - 1])),
        )
    }
}

/// The store after each category's listing is written, in order.
pub open spec fn with_categories(st: StoreView, ns: Seq<char>, slugs: Seq<Seq<char>>, rs: Seq<CategoryRefView>) -> StoreView
    decreases slugs.len(),
{
    if slugs.len() == 0 {
        st
    } else {
        store_put(
            with_categories(st, ns, slugs.drop_last(), rs),
            ns,
            "/category/"@ + slugs.last(),
            NodeView::Menu(category_listing(ns, slugs.last(), rs)),
        )
    }
}

/// The store after a feed is written into namespace `ns`.
pub open spec fn with_feed(st: StoreView, ns: Seq<char>, f: Feed) -> StoreView {
    let es = f.entries@;
    let rs = feed_refs(es);
    let slugs = sorted_of(ref_slugs(rs));
    store_put(
        with_categories(with_entries(store_register(st, ns), ns, es, es.len()), ns, slugs, rs),
        ns,
        seq![],
        NodeView::Menu(feed_root(ns, f, slugs, rs)),
    )
}

fn title_of(e: &FeedEntry) -> (r: String)
    ensures
        r@ == entry_title(*e),
{
    match &e.title {
        Some(t) => t.clone(),
        None => String::from_str("Untitled"),
    }
}

fn selector_for_entry(i: usize) -> (r: String)
    ensures
        r@ == entry_selector(i as nat),
{
    concat("/entry/", decimal_string(i).as_str())
}

/// Appends `\n` and `line` to a text of joined lines.
fn append_line(r: &mut String, line: &str, Ghost(ls): Ghost<Seq<Seq<char>>>)
    requires
        ls.len() > 0,
        old(r)@ == join_lines(ls),
    ensures
        final(r)@ == join_lines(ls.push(line@)),
{
    r.append("\n");
    r.append(line);
    proof {
        reveal_strlit("\n");
        assert("\n"@ =~= seq!['\n']);
        assert(ls.push(line@).drop_last() =~= ls);
    }
}

/// The document of an entry.
pub fn entry_document(e: &FeedEntry) -> (r: String)
    ensures
        r@ == entry_doc(*e),
{
    let mut r = title_of(e);
    let ghost mut ls = seq![entry_title(*e)];
    assert(join_lines(ls) == entry_title(*e));
    match &e.published {
        Some(p) => {
            let l = concat("Published: ", p.as_str());
            append_line(&mut r, l.as_str(), Ghost(ls));
            proof {
                ls = ls.push(l@);
            }
        },
        None => match &e.updated {
            Some(u) => {
                let l = concat("Published: ", u.as_str());
                append_line(&mut r, l.as_str(), Ghost(ls));
                proof {
                    ls = ls.push(l@);
                }
            },
            None => {},
        },
    }
    assert(ls =~= seq![entry_title(*e)] + date_lines(*e));
    append_line(&mut r, "", Ghost(ls));
    proof {
        reveal_strlit("");
        assert(""@ =~= Seq::<char>::empty());
        ls = ls.push(seq![]);
    }
    let body = match &e.content {
        Some(c) => c.clone(),
        None => match &e.summary {
            Some(s) => s.clone(),
            None => String::from_str("No content available"),
        },
    };
    append_line(&mut r, body.as_str(), Ghost(ls));
    proof {
        ls = ls.push(body@);
    }
    assert(ls =~= seq![entry_title(*e)] + date_lines(*e) + seq![seq![], entry_body(*e)]);
    if e.links.len() > 0 {
        append_line(&mut r, "", Ghost(ls));
        proof {
            ls = ls.push(seq![]);
        }
        let ghost base = ls;
        let mut k: usize = 0;
        while k < e.links.len()
            invariant
                k <= e.links@.len(),
                base.len() > 0,
                ls == base + Seq::new(k as nat, |j: int| "Link: "@ + e.links@[j]@),
                r@ == join_lines(ls),
            decreases e.links.len() - k,
        {
            let l = concat("Link: ", e.links[k].as_str());
            proof {
                assert(base + Seq::new(k as nat, |j: int| "Link: "@ + e.links@[j]@) + seq![l@] =~= base
                    + Seq::new((k + 1) as nat, |j: int| "Link: "@ + e.links@[j]@));
            }
            append_line(&mut r, l.as_str(), Ghost(ls));
            proof {
                ls = ls.push(l@);
                assert(ls =~= base + Seq::new((k + 1) as nat, |j: int| "Link: "@ + e.links@[j]@));
            }
            k = k + 1;
        }
        assert(ls =~= seq![entry_title(*e)] + date_lines(*e) + seq![seq![], entry_body(*e)]
            + link_lines(*e));
    } else {
        assert(ls =~= seq![entry_title(*e)] + date_lines(*e) + seq![seq![], entry_body(*e)]
            + link_lines(*e));
    }
    r
}

/// A category's slug.
pub fn slug(label: &str) -> (r: String)
    ensures
        r@ == slug_of(label@),
{
    let low = lowercase(label);
    let v = chars_of(low.as_str());
    let mut r = String::new();
    let mut i: usize = 0;
    while i < v.len()
        invariant
            i <= v@.len(),
            v@ == lower_of(label@),
            r@ == dash_spaces(v@).take(i as int),
        decreases v.len() - i,
    {
        let c = if v[i] == ' ' {
            '-'
        } else {
            v[i]
        };
        push_char(&mut r, c);
        i = i + 1;
        assert(r@ =~= dash_spaces(v@).take(i as int));
    }
    assert(dash_spaces(v@).take(i as int) =~= dash_spaces(v@));
    r
}

/// Every entry's category memberships, in order.
pub fn category_refs(es: &Vec<FeedEntry>) -> (r: Vec<CategoryRef>)
    ensures
        ref_views(r@) == feed_refs(es@),
{
    let mut r: Vec<CategoryRef> = Vec::new();
    let mut i: usize = 0;
    while i < es.len()
        invariant
            i <= es@.len(),
            ref_views(r@) == feed_refs(es@.take(i as int)),
        decreases es.len() - i,
    {
        let e = &es[i];
        let title = title_of(e);
        assert(es@.take(i as int + 1).drop_last() =~= es@.take(i as int));
        assert(es@.take(i as int + 1).last() == *e);
        let ghost base = ref_views(r@);
        let mut k: usize = 0;
        while k < e.categories.len()
            invariant
                k <= e.categories@.len(),
                title@ == entry_title(*e),
                ref_views(r@) == base + entry_refs(*e, i as nat).take(k as int),
            decreases e.categories.len() - k,
        {
            let c = &e.categories[k];
            let label = match &c.label {
                Some(l) => l.clone(),
                None => c.term.clone(),
            };
            let s = slug(label.as_str());
            let ghost before = ref_views(r@);
            r.push(CategoryRef { slug: s, label, index: i, title: title.clone() });
            assert(ref_views(r@) =~= before.push(entry_refs(*e, i as nat)[k as int]));
            k = k + 1;
            assert(ref_views(r@) =~= base + entry_refs(*e, i as nat).take(k as int));
        }
        assert(entry_refs(*e, i as nat).take(k as int) =~= entry_refs(*e, i as nat));
        i = i + 1;
    }
    assert(es@.take(i as int) =~= es@);
    r
}

/// The distinct slugs, sorted.
pub fn sorted_slugs(rs: &Vec<CategoryRef>) -> (r: Vec<String>)
    ensures
        string_views(r@) == sorted_of(ref_slugs(ref_views(rs@))),
{
    let ghost rv = ref_views(rs@);
    let mut r: Vec<String> = Vec::new();
    let mut i: usize = 0;
    assert(string_views(r@).to_set() =~= ref_slugs(rv.take(0)));
    while i < rs.len()
        invariant
            i <= rs@.len(),
            rv == ref_views(rs@),
            sorted_texts(string_views(r@)),
            string_views(r@).to_set() == ref_slugs(rv.take(i as int)),
        decreases rs.len() - i,
    {
        insert_sorted(&mut r, rs[i].slug.clone());
        proof {
            let a = Seq::new(rv.take(i as int).len(), |j: int| rv.take(i as int)[j].slug);
            let b = Seq::new(rv.take(i as int + 1).len(), |j: int| rv.take(i as int + 1)[j].slug);
            assert(b =~= a.push(rv[i as int].slug));
            a.lemma_push_to_set_commute(rv[i as int].slug);
        }
        i = i + 1;
    }
    proof {
        assert(rv.take(i as int) =~= rv);
        lemma_is_sorted_of(string_views(r@));
    }
    r
}

/// The label of a category: that of its first membership.
pub fn label_for(rs: &Vec<CategoryRef>, s: &str) -> (r: String)
    ensures
        r@ == first_label(ref_views(rs@), s@),
{
    let ghost rv = ref_views(rs@);
    let mut i: usize = 0;
    assert(rv.skip(0) =~= rv);
    while i < rs.len()
        invariant
            i <= rs@.len(),
            rv == ref_views(rs@),
            first_label(rv.skip(i as int), s@) == first_label(rv, s@),
        decreases rs.len() - i,
    {
        assert(rv.skip(i as int)[0] == rs@[i as int]@);
        if text_eq(rs[i].slug.as_str(), s) {
            return rs[i].label.clone();
        }
        assert(rv.skip(i as int).drop_first() =~= rv.skip(i as int + 1));
        i = i + 1;
    }
    assert(rv.skip(i as int) =~= Seq::<CategoryRefView>::empty());
    String::new()
}

impl RssAdapter {
    /// The listing of a category.
    pub fn category_menu(&self, rs: &Vec<CategoryRef>, s: &str) -> (r: Vec<MenuItem>)
        ensures
            item_views(r@) == category_listing(self.namespace@, s@, ref_views(rs@)),
    {
        let ghost rv = ref_views(rs@);
        let mut r: Vec<MenuItem> = Vec::new();
        r.push(
            MenuItem {
                itype: ItemType::Info,
                display: concat("Category: ", label_for(rs, s).as_str()),
                selector: String::new(),
                host: String::new(),
                port: 0,
            },
        );
        r.push(
            MenuItem {
                itype: ItemType::Info,
                display: String::from_str("---"),
                selector: String::new(),
                host: String::new(),
                port: 0,
            },
        );
        let ghost head = item_views(r@);
        assert(head =~= seq![info_line("Category: "@ + first_label(rv, s@)), info_line("---"@)]);
        let mut i: usize = 0;
        assert(members(rv.take(0), s@) =~= Seq::<CategoryRefView>::empty());
        while i < rs.len()
            invariant
                i <= rs@.len(),
                rv == ref_views(rs@),
                item_views(r@) == head + Seq::new(
                    members(rv.take(i as int), s@).len(),
                    |k: int|
                        entry_item(
                            self.namespace@,
                            members(rv.take(i as int), s@)[k].title,
                            members(rv.take(i as int), s@)[k].index,
                        ),
                ),
            decreases rs.len() - i,
        {
            assert(rv.take(i as int + 1).drop_last() =~= rv.take(i as int));
            assert(rv.take(i as int + 1).last() == rs@[i as int]@);
            let ghost before = item_views(r@);
            if text_eq(rs[i].slug.as_str(), s) {
                r.push(
                    MenuItem {
                        itype: ItemType::TextFile,
                        display: rs[i].title.clone(),
                        selector: selector_for_entry(rs[i].index),
                        host: self.namespace.clone(),
                        port: 0,
                    },
                );
                assert(item_views(r@) =~= before.push(r@.last()@));
            }
            i = i + 1;
            assert(item_views(r@) =~= head + Seq::new(
                members(rv.take(i as int), s@).len(),
                |k: int|
                    entry_item(
                        self.namespace@,
                        members(rv.take(i as int), s@)[k].title,
                        members(rv.take(i as int), s@)[k].index,
                    ),
            ));
        }
        assert(rv.take(i as int) =~= rv);
        r
    }

    /// The root listing of a feed.
    pub fn feed_menu(&self, f: &Feed, slugs: &Vec<String>, rs: &Vec<CategoryRef>) -> (r: Vec<MenuItem>)
        ensures
            item_views(r@) == feed_root(self.namespace@, *f, string_views(slugs@), ref_views(rs@)),
    {
        let ghost sv = string_views(slugs@);
        let mut r: Vec<MenuItem> = Vec::new();
        r.push(
            MenuItem {
                itype: ItemType::Info,
                display: match &f.title {
                    Some(t) => t.clone(),
                    None => String::from_str("RSS Feed"),
                },
                selector: String::new(),
                host: String::new(),
                port: 0,
            },
        );
        r.push(
            MenuItem {
                itype: ItemType::Info,
                display: String::from_str("---"),
                selector: String::new(),
                host: String::new(),
                port: 0,
            },
        );
        let ghost head = item_views(r@);
        let mut i: usize = 0;
        while i < f.entries.len()
            invariant
                i <= f.entries@.len(),
                item_views(r@) == head + Seq::new(
                    i as nat,
                    |j: int| entry_item(self.namespace@, entry_title(f.entries@[j]), j as nat),
                ),
            decreases f.entries.len() - i,
        {
            let ghost before = item_views(r@);
            r.push(
                MenuItem {
                    itype: ItemType::TextFile,
                    display: title_of(&f.entries[i]),
                    selector: selector_for_entry(i),
                    host: self.namespace.clone(),
                    port: 0,
                },
            );
            assert(item_views(r@) =~= before.push(r@.last()@));
            i = i + 1;
            assert(item_views(r@) =~= head + Seq::new(
                i as nat,
                |j: int| entry_item(self.namespace@, entry_title(f.entries@[j]), j as nat),
            ));
        }
        let ghost mid = item_views(r@);
        let mut k: usize = 0;
        while k < slugs.len()
            invariant
                k <= slugs@.len(),
                sv == string_views(slugs@),
                item_views(r@) == mid + Seq::new(
                    k as nat,
                    |j: int|
                        MenuItemView {
                            itype: ItemType::Menu,
                            display: first_label(ref_views(rs@), sv[j]),
                            selector: "/category/"@ + sv[j],
                            host: self.namespace@,
                            port: 0,
                        },
                ),
            decreases slugs.len() - k,
        {
            let ghost before = item_views(r@);
            r.push(
                MenuItem {
                    itype: ItemType::Menu,
                    display: label_for(rs, slugs[k].as_str()),
                    selector: concat("/category/", slugs[k].as_str()),
                    host: self.namespace.clone(),
                    port: 0,
                },
            );
            assert(item_views(r@) =~= before.push(r@.last()@));
            k = k + 1;
            assert(item_views(r@) =~= mid + Seq::new(
                k as nat,
                |j: int|
                    MenuItemView {
                        itype: ItemType::Menu,
                        display: first_label(ref_views(rs@), sv[j]),
                        selector: "/category/"@ + sv[j],
                        host: self.namespace@,
                        port: 0,
                    },
            ));
        }
        assert(item_views(r@) =~= feed_root(self.namespace@, *f, sv, ref_views(rs@)));
        r
    }

    /// Fills the adapter's namespace from a feed: registers it, writes a
    /// document per entry and a listing per category, then the root listing.
    pub fn sync_feed(&self, store: &mut LocalStore, f: &Feed)
        requires
            old(store).wf(),
        ensures
            final(store).wf(),
            final(store)@ == with_feed(old(store)@, self.namespace@, *f),
    {
        let ghost ns = self.namespace@;
        let ghost es = f.entries@;
        store.register_namespace(self.namespace.as_str());
        let ghost s0 = store@;
        let mut i: usize = 0;
        while i < f.entries.len()
            invariant
                i <= f.entries@.len(),
                es == f.entries@,
                ns == self.namespace@,
                store.wf(),
                store@ == with_entries(s0, ns, es, i as nat),
            decreases f.entries.len() - i,
        {
            let sel = selector_for_entry(i);
            let doc = entry_document(&f.entries[i]);
            store.add_content(self.namespace.as_str(), sel.as_str(), ContentNode::Document(doc));
            i = i + 1;
        }
        let rs = category_refs(&f.entries);
        let slugs = sorted_slugs(&rs);
        let ghost sv = string_views(slugs@);
        let ghost s1 = store@;
        let mut k: usize = 0;
        assert(sv.take(0) =~= Seq::<Seq<char>>::empty());
        while k < slugs.len()
            invariant
                k <= slugs@.len(),
                sv == string_views(slugs@),
                ns == self.namespace@,
                store.wf(),
                store@ == with_categories(s1, ns, sv.take(k as int), ref_views(rs@)),
            decreases slugs.len() - k,
        {
            let sel = concat("/category/", slugs[k].as_str());
            let menu = self.category_menu(&rs, slugs[k].as_str());
            store.add_content(self.namespace.as_str(), sel.as_str(), ContentNode::Menu(menu));
            assert(sv.take(k as int + 1).drop_last() =~= sv.take(k as int));
            k = k + 1;
        }
        assert(sv.take(k as int) =~= sv);
        let root = self.feed_menu(f, &slugs, &rs);
        store.add_content(self.namespace.as_str(), "", ContentNode::Menu(root));
        proof {
            reveal_strlit("");
            assert(""@ =~= Seq::<char>::empty());
        }
    }
}

} // verus!
