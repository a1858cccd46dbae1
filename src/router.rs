//! Dispatch of requests by address: local namespaces are served from the
//! store, others go to the wire protocol; writes go to writable adapters.
use vstd::prelude::*;
use vstd::string::StringExecFns;
use crate::gopher::{GopherError, MenuItem, MenuItemView, item_views};
use crate::store::{LocalStore, ContentNode, NodeView, StoreView, store_get};
use crate::adapters::AdapterError;
use crate::text::{
    chars_of, string_of_range, text_eq, lowercase, lower_of, text_contains, contains_text,
    insert_sorted, sorted_texts, string_views,
};

verus! {

/// Failures of a routed request.
#[derive(Debug)]
pub enum RouterError {
    /// Nothing of the asked kind at this path: the selector, then the namespace.
    SelectorNotFound(String, String),
    Gopher(GopherError),
    NotWritable(String),
    Adapter(AdapterError),
}

/// Where a request goes.
#[derive(Debug)]
pub enum Route {
    /// A namespace of the local store.
    Local { namespace: String, selector: String },
    /// A remote host, reached over the wire protocol.
    Remote { host: String, selector: String },
}

/// The port of remote hosts.
pub const REMOTE_PORT: u16 = 70;

/// `i` is the position of the first `c` in `s`.
pub open spec fn first_at(s: Seq<char>, c: char, i: int) -> bool {
    0 <= i < s.len() && s[i] == c && forall|k: int| 0 <= k < i ==> s[k] != c
}

/// The namespace of an address: what stands before its first `/`.
pub open spec fn address_namespace(a: Seq<char>) -> Seq<char> {
    if exists|i: int| first_at(a, '/', i) {
        a.take(choose|i: int| first_at(a, '/', i))
    } else {
        a
    }
}

/// The path of an address: from its first `/` on, where a lone `/` is the
/// empty path (the namespace root).
pub open spec fn address_path(a: Seq<char>) -> Seq<char> {
    if exists|i: int| first_at(a, '/', i) {
        let p = a.skip(choose|i: int| first_at(a, '/', i));
        if p == seq!['/'] {
            seq![]
        } else {
            p
        }
    } else {
        seq![]
    }
}

/// A registered adapter: its namespace and whether it accepts writes.
struct AdapterEntry {
    namespace: String,
    writable: bool,
}

/// Registrations in order; a later one for the same namespace wins.
spec fn registry(es: Seq<AdapterEntry>) -> Map<Seq<char>, bool>
    decreases es.len(),
{
    if es.len() == 0 {
        Map::empty()
    } else {
        registry(es.drop_last()).insert(es.last().namespace@, es.last().writable)
    }
}

proof fn lemma_registry_last(es: Seq<AdapterEntry>, k: Seq<char>, i: int)
    requires
        0 <= i < es.len(),
        es[i].namespace@ == k,
        forall|j: int| i < j < es.len() ==> es[j].namespace@ != k,
    ensures
        registry(es).contains_key(k),
        registry(es)[k] == es[i].writable,
    decreases es.len(),
{
    if i < es.len() - 1 {
        lemma_registry_last(es.drop_last(), k, i);
    }
}

proof fn lemma_registry_absent(es: Seq<AdapterEntry>, k: Seq<char>)
    requires
        forall|j: int| 0 <= j < es.len() ==> es[j].namespace@ != k,
    ensures
        !registry(es).contains_key(k),
    decreases es.len(),
{
    if es.len() > 0 {
        lemma_registry_absent(es.drop_last(), k);
    }
}

proof fn lemma_registry_dom(es: Seq<AdapterEntry>)
    ensures
        registry(es).dom() == Seq::new(es.len(), |j: int| es[j].namespace@).to_set(),
    decreases es.len(),
{
    let names = Seq::new(es.len(), |j: int| es[j].namespace@);
    if es.len() > 0 {
        lemma_registry_dom(es.drop_last());
        let prev = Seq::new((es.len() - 1) as nat, |j: int| es.drop_last()[j].namespace@);
        assert(names =~= prev.push(es.last().namespace@));
        prev.lemma_push_to_set_commute(es.last().namespace@);
    } else {
        assert(names.to_set() =~= Set::empty());
    }
    assert(registry(es).dom() =~= names.to_set());
}

/// The router's state as plain values.
pub struct RouterView {
    pub store: StoreView,
    /// For each namespace with an adapter, whether that adapter accepts writes.
    pub adapters: Map<Seq<char>, bool>,
}

pub struct Router {
    pub local_store: LocalStore,
    adapters: Vec<AdapterEntry>,
}

impl View for Router {
    type V = RouterView;

    closed spec fn view(&self) -> RouterView {
        RouterView { store: self.local_store@, adapters: registry(self.adapters@) }
    }
}

/// The items whose display text contains the query, ignoring case.
pub open spec fn filter_spec(items: Seq<MenuItemView>, query: Seq<char>) -> Seq<MenuItemView> {
    items.filter(query_filter(query))
}

/// Whether an item's display text contains the query, ignoring case.
pub open spec fn query_filter(query: Seq<char>) -> spec_fn(MenuItemView) -> bool {
    |i: MenuItemView| contains_text(lower_of(i.display), lower_of(query))
}

/// Whether an item's lower-cased display text matches a lower-cased query.
pub fn matches_folded(display_lower: &str, query_lower: &str) -> (r: bool)
    ensures
        r == contains_text(display_lower@, query_lower@),
{
    text_contains(display_lower, query_lower)
}

/// The items whose display text contains `query`, ignoring case, in order.
pub fn filter_items(items: &Vec<MenuItem>, query: &str) -> (r: Vec<MenuItem>)
    ensures
        item_views(r@) == filter_spec(item_views(items@), query@),
{
    let q = lowercase(query);
    let ghost f = query_filter(query@);
    let mut r: Vec<MenuItem> = Vec::new();
    let mut i: usize = 0;
    while i < items.len()
        invariant
            i <= items@.len(),
            q@ == lower_of(query@),
            f == query_filter(query@),
            item_views(r@) == item_views(items@).take(i as int).filter(f),
        decreases items.len() - i,
    {
        let ghost before = item_views(r@);
        let d = lowercase(items[i].display.as_str());
        let keep = matches_folded(d.as_str(), q.as_str());
        assert(item_views(items@).take(i as int + 1).drop_last() =~= item_views(items@).take(
            i as int,
        ));
        assert(item_views(items@).take(i as int + 1).last() == items@[i as int]@);
        assert(f(items@[i as int]@) == keep);
        let ghost x = items@[i as int]@;
        proof {
            assert(item_views(items@).take(i as int + 1) =~= item_views(items@).take(i as int).push(
                x,
            ));
            item_views(items@).take(i as int).lemma_filter_push(x, f);
        }
        if keep {
            r.push(items[i].duplicate());
            assert(item_views(r@) =~= before.push(items@[i as int]@));
        } else {
            assert(item_views(r@) =~= before);
        }
        i = i + 1;
    }
    assert(item_views(items@).take(i as int) =~= item_views(items@));
    r
}

impl Router {
    pub closed spec fn wf(&self) -> bool {
        self.local_store.wf()
    }

    pub fn new(local_store: LocalStore) -> (r: Router)
        requires
            local_store.wf(),
        ensures
            r.wf(),
            r@.store == local_store@,
            r@.adapters == Map::<Seq<char>, bool>::empty(),
    {
        Router { local_store, adapters: Vec::new() }
    }

    /// Registers an adapter for its namespace; a later registration for the
    /// same namespace replaces an earlier one.
    pub fn register_adapter(&mut self, namespace: &str, writable: bool)
        requires
            old(self).wf(),
        ensures
            final(self).wf(),
            final(self)@.store == old(self)@.store,
            final(self)@.adapters == old(self)@.adapters.insert(namespace@, writable),
    {
        let ghost es = self.adapters@;
        self.adapters.push(AdapterEntry { namespace: String::from_str(namespace), writable });
        assert(self.adapters@.drop_last() =~= es);
    }

    /// The adapter registration for `namespace`, if any: whether it is writable.
    fn adapter_writable(&self, namespace: &str) -> (r: Option<bool>)
        ensures
            match r {
                Some(w) => self@.adapters.contains_key(namespace@) && self@.adapters[namespace@]
                    == w,
                None => !self@.adapters.contains_key(namespace@),
            },
    {
        let mut i: usize = self.adapters.len();
        while i > 0
            invariant
                i <= self.adapters@.len(),
                forall|j: int| i <= j < self.adapters@.len() ==> self.adapters@[j].namespace@ != namespace@,
            decreases i,
        {
            if text_eq(self.adapters[i - 1].namespace.as_str(), namespace) {
                proof {
                    lemma_registry_last(self.adapters@, namespace@, i - 1);
                }
                return Some(self.adapters[i - 1].writable);
            }
            i = i - 1;
        }
        proof {
            lemma_registry_absent(self.adapters@, namespace@);
        }
        None
    }

    /// Splits an address into its namespace and its path.
    pub fn parse_path(&self, path: &str) -> (r: (String, String))
        ensures
            r.0@ == address_namespace(path@),
            r.1@ == address_path(path@),
    {
        let v = chars_of(path);
        let mut i: usize = 0;
        while i < v.len()
            invariant
                i <= v@.len(),
                v@ == path@,
                forall|k: int| 0 <= k < i ==> v@[k] != '/',
            decreases v.len() - i,
        {
            if v[i] == '/' {
                assert(first_at(path@, '/', i as int));
                assert forall|j: int| first_at(path@, '/', j) implies j == i by {
                    if j < i {
                    } else if j > i {
                        assert(path@[i as int] == '/');
                    }
                };
                let host = string_of_range(&v, 0, i);
                assert(host@ =~= path@.take(i as int));
                if v.len() == i + 1 {
                    assert(path@.skip(i as int) =~= seq!['/']);
                    return (host, String::new());
                }
                let sel = string_of_range(&v, i, v.len());
                assert(sel@ =~= path@.skip(i as int));
                assert(sel@ != seq!['/']) by {
                    assert(sel@.len() > 1);
                };
                return (host, sel);
            }
            i = i + 1;
        }
        assert(!exists|j: int| first_at(path@, '/', j)) by {
            assert forall|j: int| !first_at(path@, '/', j) by {
                if 0 <= j < path@.len() {
                    assert(v@[j] != '/');
                }
            };
        };
        (String::from_str(path), String::new())
    }

    /// Whether a namespace is served locally.
    pub fn is_local(&self, host: &str) -> (r: bool)
        ensures
            r == self@.store.contains_key(host@),
    {
        self.local_store.has_namespace(host)
    }

    /// Where a request for `path` goes.
    pub fn route(&self, path: &str) -> (r: Route)
        ensures
            match r {
                Route::Local { namespace, selector } => namespace@ == address_namespace(path@)
                    && selector@ == address_path(path@) && self@.store.contains_key(namespace@),
                Route::Remote { host, selector } => host@ == address_namespace(path@)
                    && selector@ == address_path(path@) && !self@.store.contains_key(host@),
            },
    {
        let (host, selector) = self.parse_path(path);
        if self.is_local(host.as_str()) {
            Route::Local { namespace: host, selector }
        } else {
            Route::Remote { host, selector }
        }
    }

    /// The listing stored at `selector` in a local namespace; a document or
    /// nothing there is "not found".
    pub fn browse_local(&self, namespace: &str, selector: &str) -> (r: Result<
        Vec<MenuItem>,
        RouterError,
    >)
        requires
            self.wf(),
        ensures
            match store_get(self@.store, namespace@, selector@) {
                Some(NodeView::Menu(items)) => r matches Ok(v) && item_views(v@) == items,
                _ => r matches Err(RouterError::SelectorNotFound(s, n)) && s@ == selector@ && n@
                    == namespace@,
            },
    {
        match self.local_store.get_content(namespace, selector) {
            Some(ContentNode::Menu(items)) => Ok(items),
            _ => Err(
                RouterError::SelectorNotFound(String::from_str(selector), String::from_str(namespace)),
            ),
        }
    }

    /// The document stored at `selector` in a local namespace; a listing or
    /// nothing there is "not found".
    pub fn fetch_local(&self, namespace: &str, selector: &str) -> (r: Result<String, RouterError>)
        requires
            self.wf(),
        ensures
            match store_get(self@.store, namespace@, selector@) {
                Some(NodeView::Document(text)) => r matches Ok(t) && t@ == text,
                _ => r matches Err(RouterError::SelectorNotFound(s, n)) && s@ == selector@ && n@
                    == namespace@,
            },
    {
        match self.local_store.get_content(namespace, selector) {
            Some(ContentNode::Document(text)) => Ok(text),
            _ => Err(
                RouterError::SelectorNotFound(String::from_str(selector), String::from_str(namespace)),
            ),
        }
    }

    /// A local search: the adapter's own answer where it gave one, else the
    /// items of the listing at `selector` whose display text contains the
    /// query, ignoring case.
    pub fn search_local(
        &self,
        namespace: &str,
        selector: &str,
        query: &str,
        adapter_answer: Option<Vec<MenuItem>>,
    ) -> (r: Result<Vec<MenuItem>, RouterError>)
        requires
            self.wf(),
        ensures
            match adapter_answer {
                Some(items) => r matches Ok(v) && item_views(v@) == item_views(items@),
                None => match store_get(self@.store, namespace@, selector@) {
                    Some(NodeView::Menu(items)) => r matches Ok(v) && item_views(v@) == filter_spec(
                        items,
                        query@,
                    ),
                    _ => r matches Err(RouterError::SelectorNotFound(s, n)) && s@ == selector@
                        && n@ == namespace@,
                },
            },
    {
        match adapter_answer {
            Some(items) => Ok(items),
            None => match self.local_store.get_content(namespace, selector) {
                Some(ContentNode::Menu(items)) => Ok(filter_items(&items, query)),
                _ => Err(
                    RouterError::SelectorNotFound(
                        String::from_str(selector),
                        String::from_str(namespace),
                    ),
                ),
            },
        }
    }

    /// The namespace and path that a publish or delete at `path` goes to:
    /// only a local namespace whose adapter accepts writes takes one.
    pub fn write_target(&self, path: &str) -> (r: Result<(String, String), RouterError>)
        ensures
            ({
                let ns = address_namespace(path@);
                if self@.store.contains_key(ns) && self@.adapters.contains_key(ns)
                    && self@.adapters[ns] {
                    r matches Ok(t) && t.0@ == ns && t.1@ == address_path(path@)
                } else {
                    r matches Err(RouterError::NotWritable(n)) && n@ == ns
                }
            }),
    {
        let (host, selector) = self.parse_path(path);
        if !self.is_local(host.as_str()) {
            return Err(RouterError::NotWritable(host));
        }
        match self.adapter_writable(host.as_str()) {
            Some(true) => Ok((host, selector)),
            _ => Err(RouterError::NotWritable(host)),
        }
    }

    /// Every known namespace, from the store and from adapters, sorted and
    /// without repeats.
    pub fn namespaces(&self) -> (r: Vec<String>)
        ensures
            sorted_texts(string_views(r@)),
            string_views(r@).to_set() == self@.store.dom().union(self@.adapters.dom()),
    {
        let mut r = self.local_store.namespace_names();
        let ghost base = string_views(r@).to_set();
        let ghost es = self.adapters@;
        let ghost names = Seq::new(es.len(), |j: int| es[j].namespace@);
        let mut i: usize = 0;
        assert(names.take(0).to_set() =~= Set::empty());
        while i < self.adapters.len()
            invariant
                i <= es.len(),
                es == self.adapters@,
                names == Seq::new(es.len(), |j: int| es[j].namespace@),
                sorted_texts(string_views(r@)),
                string_views(r@).to_set() == base.union(names.take(i as int).to_set()),
            decreases self.adapters.len() - i,
        {
            insert_sorted(&mut r, self.adapters[i].namespace.clone());
            proof {
                assert(names.take(i as int + 1) =~= names.take(i as int).push(es[i as int].namespace@));
                names.take(i as int).lemma_push_to_set_commute(es[i as int].namespace@);
                assert(string_views(r@).to_set() =~= base.union(names.take(i as int + 1).to_set()));
            }
            i = i + 1;
        }
        proof {
            lemma_registry_dom(es);
            assert(names.take(i as int) =~= names);
        }
        r
    }
}

} // verus!
