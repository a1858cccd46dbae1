//! The content store: for each registered namespace, a mapping from path to
//! entry. Writes replace whole entries; a write to a namespace that was never
//! registered changes nothing.
use vstd::prelude::*;
use vstd::string::StringExecFns;
use crate::gopher::{MenuItem, MenuItemView, ItemType, item_views, duplicate_items};
use crate::text::{text_eq, text_starts_with, insert_sorted, sorted_texts, string_views};

verus! {

/// What is stored at one path: a listing or a document.
#[derive(Debug)]
pub enum ContentNode {
    Menu(Vec<MenuItem>),
    Document(String),
}

/// An entry as plain values.
pub enum NodeView {
    Menu(Seq<MenuItemView>),
    Document(Seq<char>),
}

impl View for ContentNode {
    type V = NodeView;

    open spec fn view(&self) -> NodeView {
        match self {
            ContentNode::Menu(items) => NodeView::Menu(item_views(items@)),
            ContentNode::Document(text) => NodeView::Document(text@),
        }
    }
}

impl ContentNode {
    /// A copy with the same contents.
    pub fn duplicate(&self) -> (r: ContentNode)
        ensures
            r@ == self@,
    {
        match self {
            ContentNode::Menu(items) => ContentNode::Menu(duplicate_items(items)),
            ContentNode::Document(text) => ContentNode::Document(text.clone()),
        }
    }
}

/// One stored entry with its key.
struct StoreEntry {
    namespace: String,
    selector: String,
    node: ContentNode,
}

/// The model of a store: namespace, then path, to entry.
pub type StoreView = Map<Seq<char>, Map<Seq<char>, NodeView>>;

pub struct LocalStore {
    namespaces: Vec<String>,
    entries: Vec<StoreEntry>,
}

spec fn entry_at(es: Seq<StoreEntry>, i: int, ns: Seq<char>, p: Seq<char>) -> bool {
    0 <= i < es.len() && es[i].namespace@ == ns && es[i].selector@ == p
}

spec fn has_entry(es: Seq<StoreEntry>, ns: Seq<char>, p: Seq<char>) -> bool {
    exists|i: int| entry_at(es, i, ns, p)
}

spec fn entry_index(es: Seq<StoreEntry>, ns: Seq<char>, p: Seq<char>) -> int {
    choose|i: int| entry_at(es, i, ns, p)
}

spec fn has_name(v: Seq<String>, ns: Seq<char>) -> bool {
    exists|i: int| 0 <= i < v.len() && v[i]@ == ns
}

spec fn content_of(es: Seq<StoreEntry>, ns: Seq<char>) -> Map<Seq<char>, NodeView> {
    Map::new(|p: Seq<char>| has_entry(es, ns, p), |p: Seq<char>| es[entry_index(es, ns, p)].node@)
}

spec fn model(names: Seq<String>, es: Seq<StoreEntry>) -> StoreView {
    Map::new(|ns: Seq<char>| has_name(names, ns), |ns: Seq<char>| content_of(es, ns))
}

impl View for LocalStore {
    type V = StoreView;

    closed spec fn view(&self) -> StoreView {
        model(self.namespaces@, self.entries@)
    }
}

/// A store after `put(ns, p, e)`: the entry is replaced where the namespace
/// is registered, and nothing changes elsewhere.
pub open spec fn store_put(s: StoreView, ns: Seq<char>, p: Seq<char>, e: NodeView) -> StoreView {
    if s.contains_key(ns) {
        s.insert(ns, s[ns].insert(p, e))
    } else {
        s
    }
}

/// What `get(ns, p)` finds in a store.
pub open spec fn store_get(s: StoreView, ns: Seq<char>, p: Seq<char>) -> Option<NodeView> {
    if s.contains_key(ns) && s[ns].contains_key(p) {
        Some(s[ns][p])
    } else {
        None
    }
}

/// A store after `remove(ns, p)`.
pub open spec fn store_remove(s: StoreView, ns: Seq<char>, p: Seq<char>) -> StoreView {
    if s.contains_key(ns) {
        s.insert(ns, s[ns].remove(p))
    } else {
        s
    }
}

/// A store after `register(ns)`: an empty mapping for a new namespace.
pub open spec fn store_register(s: StoreView, ns: Seq<char>) -> StoreView {
    if s.contains_key(ns) {
        s
    } else {
        s.insert(ns, Map::empty())
    }
}

/// An item of the example content.
pub open spec fn local_item(t: ItemType, display: Seq<char>, selector: Seq<char>) -> MenuItemView {
    MenuItemView { itype: t, display, selector, host: "local"@, port: 0 }
}

/// The example content's root listing.
pub open spec fn example_root() -> Seq<MenuItemView> {
    seq![
        local_item(ItemType::TextFile, "Welcome to gopher-mcp"@, "/welcome"@),
        MenuItemView {
            itype: ItemType::Info,
            display: "-----------------------"@,
            selector: seq![],
            host: seq![],
            port: 0,
        },
        local_item(ItemType::Menu, "Submenu Example"@, "/sub"@),
    ]
}

/// The example content's sub-listing.
pub open spec fn example_sub() -> Seq<MenuItemView> {
    seq![
        local_item(ItemType::TextFile, "Back to root"@, ""@),
        local_item(ItemType::TextFile, "Deep document"@, "/sub/deep"@),
    ]
}

/// A store with the example namespace `local` added.
pub open spec fn with_example(s: StoreView) -> StoreView {
    let s1 = store_register(s, "local"@);
    let s2 = store_put(s1, "local"@, ""@, NodeView::Menu(example_root()));
    let s3 = store_put(
        s2,
        "local"@,
        "/welcome"@,
        NodeView::Document(
            "This is a local document served by gopher-mcp.\nContent here is served directly from the local store."@,
        ),
    );
    let s4 = store_put(s3, "local"@, "/sub"@, NodeView::Menu(example_sub()));
    store_put(
        s4,
        "local"@,
        "/sub/deep"@,
        NodeView::Document("This is a document deep in the local hierarchy."@),
    )
}

fn local_menu_item(t: ItemType, display: &str, selector: &str) -> (r: MenuItem)
    ensures
        r@ == local_item(t, display@, selector@),
{
    MenuItem {
        itype: t,
        display: String::from_str(display),
        selector: String::from_str(selector),
        host: String::from_str("local"),
        port: 0,
    }
}

/// Storing an entry in a registered namespace and reading it back gives the
/// entry unchanged.
pub proof fn lemma_put_then_get(s: StoreView, ns: Seq<char>, p: Seq<char>, e: NodeView)
    requires
        s.contains_key(ns),
    ensures
        store_get(store_put(s, ns, p, e), ns, p) == Some(e),
{
}

/// Storing into a namespace that is not registered changes nothing, and a
/// later read there finds nothing.
pub proof fn lemma_put_unregistered(s: StoreView, ns: Seq<char>, p: Seq<char>, e: NodeView)
    requires
        !s.contains_key(ns),
    ensures
        store_put(s, ns, p, e) == s,
        store_get(store_put(s, ns, p, e), ns, p) is None,
{
}

impl LocalStore {
    /// Registered names are distinct, each entry's key is distinct, and every
    /// entry lies in a registered namespace.
    pub closed spec fn wf(&self) -> bool {
        &&& forall|i: int, j: int|
            0 <= i < j < self.namespaces@.len() ==> self.namespaces@[i]@ != self.namespaces@[j]@
        &&& forall|i: int, j: int|
            0 <= i < j < self.entries@.len() ==> !(self.entries@[i].namespace@
                == self.entries@[j].namespace@ && self.entries@[i].selector@
                == self.entries@[j].selector@)
        &&& forall|i: int|
            0 <= i < self.entries@.len() ==> has_name(
                self.namespaces@,
                #[trigger] self.entries@[i].namespace@,
            )
    }

    pub fn new() -> (r: LocalStore)
        ensures
            r.wf(),
            r@ == Map::<Seq<char>, Map<Seq<char>, NodeView>>::empty(),
    {
        let r = LocalStore { namespaces: Vec::new(), entries: Vec::new() };
        assert(r@ =~= Map::<Seq<char>, Map<Seq<char>, NodeView>>::empty());
        r
    }

    fn find_namespace(&self, ns: &str) -> (r: Option<usize>)
        ensures
            match r {
                Some(i) => i < self.namespaces@.len() && self.namespaces@[i as int]@ == ns@,
                None => !has_name(self.namespaces@, ns@),
            },
    {
        let mut i: usize = 0;
        while i < self.namespaces.len()
            invariant
                i <= self.namespaces@.len(),
                forall|k: int| 0 <= k < i ==> self.namespaces@[k]@ != ns@,
            decreases self.namespaces.len() - i,
        {
            if text_eq(self.namespaces[i].as_str(), ns) {
                return Some(i);
            }
            i = i + 1;
        }
        None
    }

    fn find_entry(&self, ns: &str, selector: &str) -> (r: Option<usize>)
        ensures
            match r {
                Some(i) => entry_at(self.entries@, i as int, ns@, selector@),
                None => !has_entry(self.entries@, ns@, selector@),
            },
    {
        let mut i: usize = 0;
        while i < self.entries.len()
            invariant
                i <= self.entries@.len(),
                forall|k: int| 0 <= k < i ==> !entry_at(self.entries@, k, ns@, selector@),
            decreases self.entries.len() - i,
        {
            if text_eq(self.entries[i].namespace.as_str(), ns) && text_eq(
                self.entries[i].selector.as_str(),
                selector,
            ) {
                return Some(i);
            }
            i = i + 1;
        }
        None
    }

    /// Registers a namespace; registering one twice changes nothing.
    pub fn register_namespace(&mut self, namespace: &str)
        requires
            old(self).wf(),
        ensures
            final(self).wf(),
            final(self)@ == store_register(old(self)@, namespace@),
    {
        proof {
            broadcast use vstd::string::group_string_axioms;
        }
        if self.find_namespace(namespace).is_some() {
            assert(self@.contains_key(namespace@));
            return ;
        }
        let ghost old_names = self.namespaces@;
        let ghost es = self.entries@;
        let name = String::from_str(namespace);
        self.namespaces.push(name);
        assert forall|n: Seq<char>| has_name(old_names, n) implies has_name(self.namespaces@, n) by {
            let i = choose|i: int| 0 <= i < old_names.len() && old_names[i]@ == n;
            assert(self.namespaces@[i] == old_names[i]);
        };
        assert(has_name(self.namespaces@, namespace@)) by {
            assert(self.namespaces@[old_names.len() as int]@ == namespace@);
        };
        assert forall|n: Seq<char>| has_name(self.namespaces@, n) implies (has_name(old_names, n)
            || n == namespace@) by {
            let i = choose|i: int| 0 <= i < self.namespaces@.len() && self.namespaces@[i]@ == n;
            if i < old_names.len() {
                assert(old_names[i]@ == n);
            }
        };
        assert(content_of(es, namespace@) =~= Map::empty()) by {
            assert forall|p: Seq<char>| !has_entry(es, namespace@, p) by {
                if has_entry(es, namespace@, p) {
                    let i = entry_index(es, namespace@, p);
                    assert(has_name(old_names, es[i].namespace@));
                }
            };
        };
        assert(self@ =~= store_register(old(self)@, namespace@));
        assert forall|i: int|
            0 <= i < self.entries@.len() implies has_name(
                self.namespaces@,
                #[trigger] self.entries@[i].namespace@,
            ) by {
            assert(has_name(old_names, es[i].namespace@));
        };
    }

    pub fn has_namespace(&self, name: &str) -> (r: bool)
        ensures
            r == self@.contains_key(name@),
    {
        self.find_namespace(name).is_some()
    }

    /// The entry stored at `selector` in `namespace`, if any.
    pub fn get_content(&self, namespace: &str, selector: &str) -> (r: Option<ContentNode>)
        requires
            self.wf(),
        ensures
            match r {
                Some(n) => store_get(self@, namespace@, selector@) == Some(n@),
                None => store_get(self@, namespace@, selector@) is None,
            },
    {
        match self.find_entry(namespace, selector) {
            Some(i) => {
                let ghost es = self.entries@;
                let ghost j = entry_index(es, namespace@, selector@);
                assert(j == i as int) by {
                    assert(entry_at(es, i as int, namespace@, selector@));
                    assert(entry_at(es, j, namespace@, selector@));
                    if j < i {
                    } else if i < j {
                    }
                };
                assert(has_name(self.namespaces@, es[i as int].namespace@));
                Some(self.entries[i].node.duplicate())
            },
            None => None,
        }
    }

    /// Stores `node` at `selector` in `namespace`, replacing what was there;
    /// does nothing where the namespace is not registered.
    pub fn add_content(&mut self, namespace: &str, selector: &str, node: ContentNode)
        requires
            old(self).wf(),
        ensures
            final(self).wf(),
            final(self)@ == store_put(old(self)@, namespace@, selector@, node@),
    {
        proof {
            broadcast use vstd::string::group_string_axioms;
        }
        if self.find_namespace(namespace).is_none() {
            return ;
        }
        let ghost names = self.namespaces@;
        let ghost es = self.entries@;
        let ghost v = node@;
        assert(has_name(names, namespace@));
        let entry = StoreEntry {
            namespace: String::from_str(namespace),
            selector: String::from_str(selector),
            node,
        };
        match self.find_entry(namespace, selector) {
            Some(i) => {
                self.entries.set(i, entry);
                let ghost es2 = self.entries@;
                assert forall|k: int| 0 <= k < es2.len() implies #[trigger] es2[k].namespace@
                    == es[k].namespace@ && es2[k].selector@ == es[k].selector@ by {};
                assert forall|n: Seq<char>, p: Seq<char>|
                    has_entry(es2, n, p) == has_entry(es, n, p) by {
                    if has_entry(es, n, p) {
                        let k = entry_index(es, n, p);
                        if k != i as int {
                            assert(entry_at(es2, k, n, p));
                        } else {
                            assert(entry_at(es2, i as int, n, p));
                        }
                    }
                    if has_entry(es2, n, p) {
                        let k = entry_index(es2, n, p);
                        if k != i as int {
                            assert(entry_at(es, k, n, p));
                        } else {
                            assert(entry_at(es, i as int, n, p));
                        }
                    }
                };
                assert forall|n: Seq<char>, p: Seq<char>| #[trigger]
                    has_entry(es2, n, p) implies es2[entry_index(es2, n, p)].node@ == (if n
                    == namespace@ && p == selector@ {
                    v
                } else {
                    es[entry_index(es, n, p)].node@
                }) by {
                    let k2 = entry_index(es2, n, p);
                    let k = entry_index(es, n, p);
                    if k2 != k {
                        if k2 < k {
                        } else {
                        }
                    }
                };
                assert forall|n: Seq<char>| has_name(names, n) implies #[trigger] content_of(
                    es2,
                    n,
                ) == (if n == namespace@ {
                    content_of(es, n).insert(selector@, v)
                } else {
                    content_of(es, n)
                }) by {
                    if n == namespace@ {
                        assert(content_of(es2, n) =~= content_of(es, n).insert(selector@, v));
                    } else {
                        assert(content_of(es2, n) =~= content_of(es, n));
                    }
                };
            },
            None => {
                self.entries.push(entry);
                let ghost es2 = self.entries@;
                let ghost last = es.len() as int;
                assert(entry_at(es2, last, namespace@, selector@));
                assert forall|k: int| 0 <= k < last implies !entry_at(
                    es,
                    k,
                    namespace@,
                    selector@,
                ) by {};
                assert forall|a: int, b: int|
                    0 <= a < b < es2.len() implies !(es2[a].namespace@ == es2[b].namespace@
                    && es2[a].selector@ == es2[b].selector@) by {
                    if b == last {
                        assert(!entry_at(es, a, namespace@, selector@));
                    }
                };
                assert forall|n: Seq<char>, p: Seq<char>|
                    has_entry(es2, n, p) == (has_entry(es, n, p) || (n == namespace@ && p
                        == selector@)) by {
                    if has_entry(es, n, p) {
                        let k = entry_index(es, n, p);
                        assert(entry_at(es2, k, n, p));
                    }
                    if has_entry(es2, n, p) {
                        let k = entry_index(es2, n, p);
                        if k < last {
                            assert(entry_at(es, k, n, p));
                        }
                    }
                };
                assert forall|n: Seq<char>, p: Seq<char>| #[trigger]
                    has_entry(es2, n, p) implies es2[entry_index(es2, n, p)].node@ == (if n
                    == namespace@ && p == selector@ {
                    v
                } else {
                    es[entry_index(es, n, p)].node@
                }) by {
                    let k2 = entry_index(es2, n, p);
                    if n == namespace@ && p == selector@ {
                        if k2 < last {
                            assert(entry_at(es, k2, n, p));
                        }
                    } else {
                        let k = entry_index(es, n, p);
                        assert(entry_at(es2, k, n, p));
                        if k2 != k {
                            if k2 < k {
                            } else {
                            }
                        }
                    }
                };
                assert forall|n: Seq<char>| has_name(names, n) implies #[trigger] content_of(
                    es2,
                    n,
                ) == (if n == namespace@ {
                    content_of(es, n).insert(selector@, v)
                } else {
                    content_of(es, n)
                }) by {
                    if n == namespace@ {
                        assert(content_of(es2, n) =~= content_of(es, n).insert(selector@, v));
                    } else {
                        assert(content_of(es2, n) =~= content_of(es, n));
                    }
                };
            },
        }
        assert(self@ =~= store_put(old(self)@, namespace@, selector@, v));
    }

    /// Removes the entry at `selector` in `namespace`, if there is one.
    pub fn remove_content(&mut self, namespace: &str, selector: &str)
        requires
            old(self).wf(),
        ensures
            final(self).wf(),
            final(self)@ == store_remove(old(self)@, namespace@, selector@),
    {
        let ghost names = self.namespaces@;
        let ghost es = self.entries@;
        match self.find_entry(namespace, selector) {
            Some(i) => {
                assert(has_name(names, namespace@));
                self.entries.remove(i);
                let ghost es2 = self.entries@;
                assert(es2 =~= es.remove(i as int));
                assert forall|k: int| 0 <= k < es2.len() implies #[trigger] es2[k] == (if k
                    < i {
                    es[k]
                } else {
                    es[k + 1]
                }) by {};
                assert forall|n: Seq<char>, p: Seq<char>|
                    has_entry(es2, n, p) == (has_entry(es, n, p) && !(n == namespace@ && p
                        == selector@)) by {
                    if has_entry(es2, n, p) {
                        let k = entry_index(es2, n, p);
                        if k < i {
                            assert(entry_at(es, k, n, p));
                        } else {
                            assert(entry_at(es, k + 1, n, p));
                        }
                    }
                    if has_entry(es, n, p) && !(n == namespace@ && p == selector@) {
                        let k = entry_index(es, n, p);
                        if k < i {
                            assert(entry_at(es2, k, n, p));
                        } else {
                            assert(k != i);
                            assert(entry_at(es2, k - 1, n, p));
                        }
                    }
                };
                assert forall|n: Seq<char>, p: Seq<char>| #[trigger]
                    has_entry(es2, n, p) implies es2[entry_index(es2, n, p)].node@ == es[entry_index(
                    es,
                    n,
                    p,
                )].node@ by {
                    let k2 = entry_index(es2, n, p);
                    let k = entry_index(es, n, p);
                    let m = if k2 < i {
                        k2
                    } else {
                        k2 + 1
                    };
                    assert(entry_at(es, m, n, p));
                    if m != k {
                        if m < k {
                        } else {
                        }
                    }
                };
                assert forall|n: Seq<char>| has_name(names, n) implies #[trigger] content_of(
                    es2,
                    n,
                ) == (if n == namespace@ {
                    content_of(es, n).remove(selector@)
                } else {
                    content_of(es, n)
                }) by {
                    if n == namespace@ {
                        assert(content_of(es2, n) =~= content_of(es, n).remove(selector@));
                    } else {
                        assert(content_of(es2, n) =~= content_of(es, n));
                    }
                };
                assert(self@ =~= store_remove(old(self)@, namespace@, selector@));
            },
            None => {
                assert(self@ =~= store_remove(old(self)@, namespace@, selector@)) by {
                    if self@.contains_key(namespace@) {
                        assert(self@[namespace@] =~= self@[namespace@].remove(selector@));
                    }
                };
            },
        }
    }

    /// The paths stored in `namespace` that start with `prefix`, each once.
    pub fn selectors_with_prefix(&self, namespace: &str, prefix: &str) -> (r: Vec<String>)
        requires
            self.wf(),
        ensures
            forall|k: int|
                0 <= k < r@.len() ==> self@.contains_key(namespace@) && self@[namespace@].contains_key(
                    #[trigger] r@[k]@,
                ) && prefix@.is_prefix_of(r@[k]@),
            forall|p: Seq<char>|
                self@.contains_key(namespace@) && #[trigger] self@[namespace@].contains_key(p)
                    && prefix@.is_prefix_of(p) ==> exists|k: int| 0 <= k < r@.len() && r@[k]@ == p,
            forall|a: int, b: int| 0 <= a < b < r@.len() ==> r@[a]@ != r@[b]@,
    {
        let ghost es = self.entries@;
        let mut r: Vec<String> = Vec::new();
        let ghost mut src: Seq<int> = seq![];
        let mut i: usize = 0;
        while i < self.entries.len()
            invariant
                self.wf(),
                es == self.entries@,
                i <= es.len(),
                src.len() == r@.len(),
                forall|k: int|
                    0 <= k < r@.len() ==> 0 <= #[trigger] src[k] < i && entry_at(
                        es,
                        src[k],
                        namespace@,
                        r@[k]@,
                    ) && prefix@.is_prefix_of(r@[k]@),
                forall|j: int|
                    0 <= j < i && es[j].namespace@ == namespace@ && prefix@.is_prefix_of(
                        es[j].selector@,
                    ) ==> exists|k: int| 0 <= k < r@.len() && r@[k]@ == #[trigger] es[j].selector@,
                forall|a: int, b: int| 0 <= a < b < r@.len() ==> r@[a]@ != r@[b]@,
            decreases es.len() - i,
        {
            let e = &self.entries[i];
            if text_eq(e.namespace.as_str(), namespace) && text_starts_with(
                e.selector.as_str(),
                prefix,
            ) {
                let ghost before = r@;
                assert forall|k: int| 0 <= k < before.len() implies before[k]@ != es[i as int].selector@ by {
                    if before[k]@ == es[i as int].selector@ {
                        assert(entry_at(es, src[k], namespace@, before[k]@));
                        assert(entry_at(es, i as int, namespace@, before[k]@));
                    }
                };
                r.push(e.selector.clone());
                proof {
                    src = src.push(i as int);
                }
                assert(r@[before.len() as int]@ == es[i as int].selector@);
                assert forall|k: int| 0 <= k < before.len() implies r@[k] == before[k] by {};
                assert forall|j: int|
                    0 <= j < i + 1 && es[j].namespace@ == namespace@ && prefix@.is_prefix_of(
                        es[j].selector@,
                    ) implies exists|k: int|
                    0 <= k < r@.len() && r@[k]@ == #[trigger] es[j].selector@ by {
                    if j < i {
                        let k = choose|k: int| 0 <= k < before.len() && before[k]@ == es[j].selector@;
                        assert(r@[k] == before[k]);
                    } else {
                        assert(r@[before.len() as int]@ == es[j].selector@);
                    }
                };
            }
            i = i + 1;
        }
        proof {
            assert forall|k: int| 0 <= k < r@.len() implies self@.contains_key(namespace@)
                && self@[namespace@].contains_key(#[trigger] r@[k]@) && prefix@.is_prefix_of(
                r@[k]@,
            ) by {
                let j = src[k];
                assert(entry_at(es, j, namespace@, r@[k]@));
                assert(has_name(self.namespaces@, es[j].namespace@));
                assert(has_name(self.namespaces@, namespace@));
                assert(has_entry(es, namespace@, r@[k]@));
            };
            assert forall|p: Seq<char>|
                self@.contains_key(namespace@) && #[trigger] self@[namespace@].contains_key(p)
                    && prefix@.is_prefix_of(p) implies exists|k: int|
                0 <= k < r@.len() && r@[k]@ == p by {
                let j = entry_index(es, namespace@, p);
                assert(entry_at(es, j, namespace@, p));
                assert(es[j].selector@ == p);
            };
            if r@.len() > 0 {
                assert(entry_at(es, src[0], namespace@, r@[0]@));
                assert(has_name(self.namespaces@, es[src[0]].namespace@));
                assert(self@.contains_key(namespace@));
            }
        }
        r
    }

    /// The registered namespaces, sorted and without repeats.
    pub fn namespace_names(&self) -> (r: Vec<String>)
        ensures
            sorted_texts(string_views(r@)),
            string_views(r@).to_set() == self@.dom(),
    {
        let mut r: Vec<String> = Vec::new();
        let mut i: usize = 0;
        assert(string_views(r@).to_set() =~= Set::empty());
        while i < self.namespaces.len()
            invariant
                i <= self.namespaces@.len(),
                sorted_texts(string_views(r@)),
                string_views(r@).to_set() == string_views(self.namespaces@.take(i as int)).to_set(),
            decreases self.namespaces.len() - i,
        {
            insert_sorted(&mut r, self.namespaces[i].clone());
            assert(string_views(self.namespaces@.take(i as int + 1)) =~= string_views(
                self.namespaces@.take(i as int),
            ).push(self.namespaces@[i as int]@));
            proof {
                let t = string_views(self.namespaces@.take(i as int));
                assert(t.push(self.namespaces@[i as int]@).to_set() =~= t.to_set().insert(
                    self.namespaces@[i as int]@,
                )) by {
                    t.lemma_push_to_set_commute(self.namespaces@[i as int]@);
                }
            }
            i = i + 1;
        }
        assert(self.namespaces@.take(i as int) =~= self.namespaces@);
        assert(string_views(self.namespaces@).to_set() =~= self@.dom()) by {
            assert forall|n: Seq<char>| #[trigger] self@.dom().contains(n) implies string_views(
                self.namespaces@,
            ).to_set().contains(n) by {
                let k = choose|k: int|
                    0 <= k < self.namespaces@.len() && self.namespaces@[k]@ == n;
                assert(string_views(self.namespaces@)[k] == n);
            };
        };
        r
    }

    /// Adds the example namespace `local` with a small tree of content.
    pub fn seed_example(&mut self)
        requires
            old(self).wf(),
        ensures
            final(self).wf(),
            final(self)@ == with_example(old(self)@),
    {
        self.register_namespace("local");
        let mut root_menu: Vec<MenuItem> = Vec::new();
        root_menu.push(local_menu_item(ItemType::TextFile, "Welcome to gopher-mcp", "/welcome"));
        root_menu.push(
            MenuItem {
                itype: ItemType::Info,
                display: String::from_str("-----------------------"),
                selector: String::new(),
                host: String::new(),
                port: 0,
            },
        );
        root_menu.push(local_menu_item(ItemType::Menu, "Submenu Example", "/sub"));
        assert(item_views(root_menu@) =~= example_root());
        self.add_content("local", "", ContentNode::Menu(root_menu));
        self.add_content(
            "local",
            "/welcome",
            ContentNode::Document(
                String::from_str(
                    "This is a local document served by gopher-mcp.\nContent here is served directly from the local store.",
                ),
            ),
        );
        let mut sub_menu: Vec<MenuItem> = Vec::new();
        sub_menu.push(local_menu_item(ItemType::TextFile, "Back to root", ""));
        sub_menu.push(local_menu_item(ItemType::TextFile, "Deep document", "/sub/deep"));
        assert(item_views(sub_menu@) =~= example_sub());
        self.add_content("local", "/sub", ContentNode::Menu(sub_menu));
        self.add_content(
            "local",
            "/sub/deep",
            ContentNode::Document(
                String::from_str("This is a document deep in the local hierarchy."),
            ),
        );
    }
}

} // verus!
