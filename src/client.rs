//! Items as the front ends show them: a kind code, its name, the display
//! text, the full address, and a MIME type.
use vstd::prelude::*;
use vstd::string::StringExecFns;
use crate::gopher::{ItemType, MenuItem, MenuItemView, code_of, name_of, mime_of};
use crate::mirror::{item_address, item_address_of};
use crate::text::push_char;

verus! {

/// A listing item as the front ends show it.
#[derive(Debug)]
pub struct BrowseItem {
    pub item_type: String,
    pub kind_name: String,
    pub display: String,
    pub path: String,
    pub mime: String,
}

pub struct BrowseItemView {
    pub item_type: Seq<char>,
    pub kind_name: Seq<char>,
    pub display: Seq<char>,
    pub path: Seq<char>,
    pub mime: Seq<char>,
}

impl View for BrowseItem {
    type V = BrowseItemView;

    open spec fn view(&self) -> BrowseItemView {
        BrowseItemView {
            item_type: self.item_type@,
            kind_name: self.kind_name@,
            display: self.display@,
            path: self.path@,
            mime: self.mime@,
        }
    }
}

impl BrowseItem {
    /// A copy with the same fields.
    pub fn duplicate(&self) -> (r: BrowseItem)
        ensures
            r@ == self@,
    {
        BrowseItem {
            item_type: self.item_type.clone(),
            kind_name: self.kind_name.clone(),
            display: self.display.clone(),
            path: self.path.clone(),
            mime: self.mime.clone(),
        }
    }
}

pub open spec fn browse_views(v: Seq<BrowseItem>) -> Seq<BrowseItemView> {
    Seq::new(v.len(), |i: int| v[i]@)
}

/// A copy of a sequence of items.
pub fn duplicate_browse_items(v: &Vec<BrowseItem>) -> (r: Vec<BrowseItem>)
    ensures
        browse_views(r@) == browse_views(v@),
{
    let mut r: Vec<BrowseItem> = Vec::new();
    let mut i: usize = 0;
    while i < v.len()
        invariant
            i <= v@.len(),
            browse_views(r@) == browse_views(v@).take(i as int),
        decreases v.len() - i,
    {
        let ghost before = browse_views(r@);
        r.push(v[i].duplicate());
        assert(browse_views(r@) =~= before.push(v@[i as int]@));
        i = i + 1;
        assert(browse_views(r@) =~= browse_views(v@).take(i as int));
    }
    assert(browse_views(v@).take(i as int) =~= browse_views(v@));
    r
}

/// How a listing item is shown: an info line has no address; any other item
/// is addressed as `host/selector`.
pub open spec fn browse_item_of(i: MenuItemView) -> BrowseItemView {
    BrowseItemView {
        item_type: seq![code_of(i.itype)],
        kind_name: name_of(i.itype),
        display: i.display,
        path: if i.itype == ItemType::Info {
            seq![]
        } else {
            item_address(i.host, i.selector)
        },
        mime: mime_of(i.itype),
    }
}

pub fn menu_item_to_browse_item(item: MenuItem) -> (r: BrowseItem)
    ensures
        r@ == browse_item_of(item@),
{
    let path = match item.itype {
        ItemType::Info => String::new(),
        _ => item_address_of(item.host.as_str(), item.selector.as_str()),
    };
    let mut code = String::new();
    push_char(&mut code, item.itype.to_char());
    assert(code@ =~= seq![code_of(item.itype)]);
    BrowseItem {
        item_type: code,
        kind_name: String::from_str(item.itype.name()),
        display: item.display,
        path,
        mime: String::from_str(item.itype.mime()),
    }
}

/// The root view of the front ends: one listing item per namespace, at
/// `namespace/`.
pub open spec fn namespace_item(ns: Seq<char>) -> BrowseItemView {
    BrowseItemView {
        item_type: "1"@,
        kind_name: "Menu"@,
        display: ns,
        path: ns + "/"@,
        mime: "application/x-gopher-menu"@,
    }
}

/// One listing item per namespace, in order.
pub fn namespace_items(namespaces: &Vec<String>) -> (r: Vec<BrowseItem>)
    ensures
        r@.len() == namespaces@.len(),
        forall|k: int| 0 <= k < r@.len() ==> #[trigger] r@[k]@ == namespace_item(namespaces@[k]@),
{
    let mut r: Vec<BrowseItem> = Vec::new();
    let mut i: usize = 0;
    while i < namespaces.len()
        invariant
            i <= namespaces@.len(),
            r@.len() == i,
            forall|k: int| 0 <= k < i ==> #[trigger] r@[k]@ == namespace_item(namespaces@[k]@),
        decreases namespaces.len() - i,
    {
        let mut path = namespaces[i].clone();
        path.append("/");
        r.push(
            BrowseItem {
                item_type: String::from_str("1"),
                kind_name: String::from_str("Menu"),
                display: namespaces[i].clone(),
                path,
                mime: String::from_str("application/x-gopher-menu"),
            },
        );
        i = i + 1;
    }
    r
}

/// The marker shown before an item of each kind code.
pub open spec fn indicator_of(t: Seq<char>) -> Seq<char> {
    if t == "1"@ {
        "[+]"@
    } else if t == "0"@ {
        "[T]"@
    } else if t == "7"@ {
        "[?]"@
    } else if t == "h"@ {
        "[H]"@
    } else if t == "i"@ {
        "   "@
    } else {
        "[.]"@
    }
}

pub fn type_indicator(item_type: &str) -> (r: &'static str)
    ensures
        r@ == indicator_of(item_type@),
{
    let t = String::from_str(item_type);
    if t == String::from_str("1") {
        "[+]"
    } else if t == String::from_str("0") {
        "[T]"
    } else if t == String::from_str("7") {
        "[?]"
    } else if t == String::from_str("h") {
        "[H]"
    } else if t == String::from_str("i") {
        "   "
    } else {
        "[.]"
    }
}

} // verus!
