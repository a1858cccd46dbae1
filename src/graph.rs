//! How the graph-data adapter fills its namespace from a set of triples:
//! one document per resource, one listing per class, and a root listing of
//! the classes, all in sorted order so that a sync is reproducible.
use vstd::prelude::*;
use vstd::string::StringExecFns;
use crate::gopher::{ItemType, MenuItem, MenuItemView, item_views, join_lines};
use crate::sources::{
    RdfAdapter, encode_uri, encoded_uri, lemma_encoding_injective, local_name, local_name_of,
    local_name_str,
};
use crate::store::{LocalStore, ContentNode, NodeView, StoreView, store_get, store_put, store_register};
use crate::text::{
    insert_sorted, sorted_texts, string_views, sorted_of, lemma_is_sorted_of, text_eq,
    lemma_text_lt_irreflexive, concat,
};

verus! {

/// One statement of a graph, each term written as text.
#[derive(Debug)]
pub struct Triple {
    pub subject: String,
    pub predicate: String,
    pub object: String,
}

/// The predicate that states a resource's class.
pub const RDF_TYPE: &'static str = "http://www.w3.org/1999/02/22-rdf-syntax-ns#type";

/// The predicate that gives a resource's label.
pub const RDFS_LABEL: &'static str = "http://www.w3.org/2000/01/rdf-schema#label";

pub open spec fn rdf_type() -> Seq<char> {
    "http://www.w3.org/1999/02/22-rdf-syntax-ns#type"@
}

/// The subjects of the triples, in order, with repeats.
pub open spec fn subject_seq(ts: Seq<Triple>) -> Seq<Seq<char>>
    decreases ts.len(),
{
    if ts.len() == 0 {
        seq![]
    } else {
        subject_seq(ts.drop_last()).push(ts.last().subject@)
    }
}

/// The classes that the triples give resources, in order, with repeats.
pub open spec fn class_seq(ts: Seq<Triple>) -> Seq<Seq<char>>
    decreases ts.len(),
{
    if ts.len() == 0 {
        seq![]
    } else if ts.last().predicate@ == rdf_type() {
        class_seq(ts.drop_last()).push(ts.last().object@)
    } else {
        class_seq(ts.drop_last())
    }
}

/// The resources that the triples put in class `c`, in order, with repeats.
pub open spec fn instance_seq(ts: Seq<Triple>, c: Seq<char>) -> Seq<Seq<char>>
    decreases ts.len(),
{
    if ts.len() == 0 {
        seq![]
    } else if ts.last().predicate@ == rdf_type() && ts.last().object@ == c {
        instance_seq(ts.drop_last(), c).push(ts.last().subject@)
    } else {
        instance_seq(ts.drop_last(), c)
    }
}

/// The property lines of a resource's document: `name: value` for each
/// triple about it, in order, with the predicate's local name.
pub open spec fn property_lines(s: Seq<char>, ts: Seq<Triple>) -> Seq<Seq<char>>
    decreases ts.len(),
{
    if ts.len() == 0 {
        seq![]
    } else if ts.last().subject@ == s {
        property_lines(s, ts.drop_last()).push(
            local_name_of(ts.last().predicate@) + ": "@ + ts.last().object@,
        )
    } else {
        property_lines(s, ts.drop_last())
    }
}

/// A resource's document: a heading, an empty line, then its properties.
pub open spec fn resource_doc(s: Seq<char>, ts: Seq<Triple>) -> Seq<char> {
    join_lines(seq!["Resource: "@ + s, seq![]] + property_lines(s, ts))
}

pub open spec fn resource_selector(s: Seq<char>) -> Seq<char> {
    "/resource/"@ + encoded_uri(s)
}

pub open spec fn class_selector(c: Seq<char>) -> Seq<char> {
    "/class/"@ + encoded_uri(c)
}

pub open spec fn info_line(d: Seq<char>) -> MenuItemView {
    MenuItemView { itype: ItemType::Info, display: d, selector: seq![], host: seq![], port: 0 }
}

/// A class's listing: a heading, a rule, then its instances in order.
pub open spec fn class_listing(ns: Seq<char>, c: Seq<char>, ts: Seq<Triple>) -> Seq<MenuItemView> {
    let inst = sorted_of(instance_seq(ts, c).to_set());
    seq![info_line("Class: "@ + local_name_of(c)), info_line("---"@)] + Seq::new(
        inst.len(),
        |k: int|
            MenuItemView {
                itype: ItemType::TextFile,
                display: local_name_of(inst[k]),
                selector: resource_selector(inst[k]),
                host: ns,
                port: 0,
            },
    )
}

/// The root listing of the classes.
pub open spec fn classes_listing(ns: Seq<char>, classes: Seq<Seq<char>>) -> Seq<MenuItemView> {
    seq![info_line("RDF Classes"@), info_line("---"@)] + Seq::new(
        classes.len(),
        |k: int|
            MenuItemView {
                itype: ItemType::Menu,
                display: local_name_of(classes[k]),
                selector: class_selector(classes[k]),
                host: ns,
                port: 0,
            },
    )
}

/// The store after each resource's document is written, in order.
pub open spec fn with_resources(st: StoreView, ns: Seq<char>, subs: Seq<Seq<char>>, ts: Seq<Triple>) -> StoreView
    decreases subs.len(),
{
    if subs.len() == 0 {
        st
    } else {
        store_put(
            with_resources(st, ns, subs.drop_last(), ts),
            ns,
            resource_selector(subs.last()),
            NodeView::Document(resource_doc(subs.last(), ts)),
        )
    }
}

/// The store after each class's listing is written, in order.
pub open spec fn with_classes(st: StoreView, ns: Seq<char>, classes: Seq<Seq<char>>, ts: Seq<Triple>) -> StoreView
    decreases classes.len(),
{
    if classes.len() == 0 {
        st
    } else {
        store_put(
            with_classes(st, ns, classes.drop_last(), ts),
            ns,
            class_selector(classes.last()),
            NodeView::Menu(class_listing(ns, classes.last(), ts)),
        )
    }
}

/// Different resources have different document paths.
pub proof fn lemma_resource_selector_injective(a: Seq<char>, b: Seq<char>)
    requires
        resource_selector(a) == resource_selector(b),
    ensures
        a == b,
{
    reveal_strlit("/resource/");
    let p = "/resource/"@;
    assert(resource_selector(a).subrange(p.len() as int, resource_selector(a).len() as int)
        =~= encoded_uri(a));
    assert(resource_selector(b).subrange(p.len() as int, resource_selector(b).len() as int)
        =~= encoded_uri(b));
    lemma_encoding_injective(a, b);
}

/// A class listing's path is never a resource document's path.
pub proof fn lemma_class_apart_from_resource(c: Seq<char>, s: Seq<char>)
    ensures
        class_selector(c) != resource_selector(s),
{
    reveal_strlit("/resource/");
    reveal_strlit("/class/");
    assert(class_selector(c)[1] == 'c');
    assert(resource_selector(s)[1] == 'r');
}

/// Writing documents for distinct resources in turn leaves each resource's
/// own document at its path.
pub proof fn lemma_resources_kept(
    st: StoreView,
    ns: Seq<char>,
    subs: Seq<Seq<char>>,
    ts: Seq<Triple>,
    s: Seq<char>,
)
    requires
        st.contains_key(ns),
        forall|i: int, j: int| 0 <= i < j < subs.len() ==> subs[i] != subs[j],
        subs.contains(s),
    ensures
        with_resources(st, ns, subs, ts).contains_key(ns),
        store_get(with_resources(st, ns, subs, ts), ns, resource_selector(s)) == Some(
            NodeView::Document(resource_doc(s, ts)),
        ),
    decreases subs.len(),
{
    lemma_resources_keep_namespace(st, ns, subs.drop_last(), ts);
    if subs.last() != s {
        let k = choose|k: int| 0 <= k < subs.len() && subs[k] == s;
        assert(subs.drop_last()[k] == s);
        lemma_resources_kept(st, ns, subs.drop_last(), ts, s);
        if resource_selector(subs.last()) == resource_selector(s) {
            lemma_resource_selector_injective(subs.last(), s);
        }
    }
}

proof fn lemma_resources_keep_namespace(st: StoreView, ns: Seq<char>, subs: Seq<Seq<char>>, ts: Seq<Triple>)
    requires
        st.contains_key(ns),
    ensures
        with_resources(st, ns, subs, ts).contains_key(ns),
    decreases subs.len(),
{
    if subs.len() > 0 {
        lemma_resources_keep_namespace(st, ns, subs.drop_last(), ts);
    }
}

proof fn lemma_classes_keep_resource(st: StoreView, ns: Seq<char>, classes: Seq<Seq<char>>, ts: Seq<Triple>, s: Seq<char>)
    ensures
        store_get(with_classes(st, ns, classes, ts), ns, resource_selector(s)) == store_get(
            st,
            ns,
            resource_selector(s),
        ),
    decreases classes.len(),
{
    if classes.len() > 0 {
        lemma_classes_keep_resource(st, ns, classes.drop_last(), ts, s);
        lemma_class_apart_from_resource(classes.last(), s);
    }
}

/// The store after a graph is written into namespace `ns`.
pub open spec fn with_graph(st: StoreView, ns: Seq<char>, ts: Seq<Triple>) -> StoreView {
    with_classes(
        with_resources(st, ns, sorted_of(subject_seq(ts).to_set()), ts),
        ns,
        sorted_of(class_seq(ts).to_set()),
        ts,
    )
}

fn info_item(d: String) -> (r: MenuItem)
    ensures
        r@ == info_line(d@),
{
    MenuItem { itype: ItemType::Info, display: d, selector: String::new(), host: String::new(), port: 0 }
}

/// The distinct subjects, sorted.
pub fn sorted_subjects(ts: &Vec<Triple>) -> (r: Vec<String>)
    ensures
        string_views(r@) == sorted_of(subject_seq(ts@).to_set()),
        sorted_texts(string_views(r@)),
        string_views(r@).to_set() == subject_seq(ts@).to_set(),
{
    let mut r: Vec<String> = Vec::new();
    let mut i: usize = 0;
    assert(string_views(r@).to_set() =~= subject_seq(ts@.take(0)).to_set());
    while i < ts.len()
        invariant
            i <= ts@.len(),
            sorted_texts(string_views(r@)),
            string_views(r@).to_set() == subject_seq(ts@.take(i as int)).to_set(),
        decreases ts.len() - i,
    {
        insert_sorted(&mut r, ts[i].subject.clone());
        proof {
            assert(ts@.take(i as int + 1).drop_last() =~= ts@.take(i as int));
            subject_seq(ts@.take(i as int)).lemma_push_to_set_commute(ts@[i as int].subject@);
        }
        i = i + 1;
    }
    proof {
        assert(ts@.take(i as int) =~= ts@);
        lemma_is_sorted_of(string_views(r@));
    }
    r
}

/// The distinct classes, sorted.
pub fn sorted_classes(ts: &Vec<Triple>) -> (r: Vec<String>)
    ensures
        string_views(r@) == sorted_of(class_seq(ts@).to_set()),
{
    let mut r: Vec<String> = Vec::new();
    let mut i: usize = 0;
    assert(string_views(r@).to_set() =~= class_seq(ts@.take(0)).to_set());
    while i < ts.len()
        invariant
            i <= ts@.len(),
            sorted_texts(string_views(r@)),
            string_views(r@).to_set() == class_seq(ts@.take(i as int)).to_set(),
        decreases ts.len() - i,
    {
        assert(ts@.take(i as int + 1).drop_last() =~= ts@.take(i as int));
        if text_eq(ts[i].predicate.as_str(), RDF_TYPE) {
            insert_sorted(&mut r, ts[i].object.clone());
            proof {
                class_seq(ts@.take(i as int)).lemma_push_to_set_commute(ts@[i as int].object@);
            }
        }
        i = i + 1;
    }
    proof {
        assert(ts@.take(i as int) =~= ts@);
        lemma_is_sorted_of(string_views(r@));
    }
    r
}

/// The distinct resources of class `c`, sorted.
pub fn sorted_instances(ts: &Vec<Triple>, c: &str) -> (r: Vec<String>)
    ensures
        string_views(r@) == sorted_of(instance_seq(ts@, c@).to_set()),
{
    let mut r: Vec<String> = Vec::new();
    let mut i: usize = 0;
    assert(string_views(r@).to_set() =~= instance_seq(ts@.take(0), c@).to_set());
    while i < ts.len()
        invariant
            i <= ts@.len(),
            sorted_texts(string_views(r@)),
            string_views(r@).to_set() == instance_seq(ts@.take(i as int), c@).to_set(),
        decreases ts.len() - i,
    {
        assert(ts@.take(i as int + 1).drop_last() =~= ts@.take(i as int));
        if text_eq(ts[i].predicate.as_str(), RDF_TYPE) && text_eq(ts[i].object.as_str(), c) {
            insert_sorted(&mut r, ts[i].subject.clone());
            proof {
                instance_seq(ts@.take(i as int), c@).lemma_push_to_set_commute(ts@[i as int].subject@);
            }
        }
        i = i + 1;
    }
    proof {
        assert(ts@.take(i as int) =~= ts@);
        lemma_is_sorted_of(string_views(r@));
    }
    r
}

/// The document that describes resource `s`.
pub fn resource_document(s: &str, ts: &Vec<Triple>) -> (r: String)
    ensures
        r@ == resource_doc(s@, ts@),
{
    let mut r = concat("Resource: ", s);
    r.append("\n");
    proof {
        reveal_strlit("\n");
        assert("\n"@ =~= seq!['\n']);
        let h = seq!["Resource: "@ + s@, seq![]];
        assert(h.drop_last() =~= seq!["Resource: "@ + s@]);
        assert(join_lines(seq!["Resource: "@ + s@]) == "Resource: "@ + s@);
        assert(h.last() == Seq::<char>::empty());
        assert(join_lines(h) =~= "Resource: "@ + s@ + seq!['\n'] + seq![]);
    }
    let ghost head = seq!["Resource: "@ + s@, Seq::<char>::empty()];
    let mut i: usize = 0;
    assert(head + property_lines(s@, ts@.take(0)) =~= head);
    while i < ts.len()
        invariant
            i <= ts@.len(),
            head == seq!["Resource: "@ + s@, Seq::<char>::empty()],
            r@ == join_lines(head + property_lines(s@, ts@.take(i as int))),
        decreases ts.len() - i,
    {
        assert(ts@.take(i as int + 1).drop_last() =~= ts@.take(i as int));
        let t = &ts[i];
        if text_eq(t.subject.as_str(), s) {
            let name = local_name(t.predicate.as_str());
            let line = concat(concat(name.as_str(), ": ").as_str(), t.object.as_str());
            let ghost prev = head + property_lines(s@, ts@.take(i as int));
            r.append("\n");
            r.append(line.as_str());
            proof {
                reveal_strlit("\n");
                assert("\n"@ =~= seq!['\n']);
                let next = head + property_lines(s@, ts@.take(i as int + 1));
                assert(next =~= prev.push(line@));
                assert(next.drop_last() =~= prev);
            }
        }
        i = i + 1;
    }
    assert(ts@.take(i as int) =~= ts@);
    r
}

/// The root listing of a graph adapter: the classes of its graph (or, with
/// no graph but an endpoint, a heading), then a search entry where an
/// endpoint is configured.
pub open spec fn graph_root(ns: Seq<char>, graph: Option<Seq<Triple>>, endpoint: Option<Seq<char>>) -> Seq<
    MenuItemView,
> {
    let base = match graph {
        Some(ts) => classes_listing(ns, sorted_of(class_seq(ts).to_set())),
        None => if endpoint is Some {
            seq![info_line("SPARQL Endpoint"@), info_line("---"@)]
        } else {
            seq![]
        },
    };
    match endpoint {
        Some(e) => base.push(
            MenuItemView {
                itype: ItemType::Search,
                display: "SPARQL Search ("@ + local_name_of(e) + ")"@,
                selector: "/sparql"@,
                host: ns,
                port: 0,
            },
        ),
        None => base,
    }
}

/// One row of a query's answer: the resource and, where there is one, its label.
#[derive(Debug)]
pub struct Binding {
    pub subject: Option<String>,
    pub label: Option<String>,
}

/// The resource a row names; a row without one names `unknown`.
pub open spec fn binding_subject(b: Binding) -> Seq<char> {
    match b.subject {
        Some(s) => s@,
        None => "unknown"@,
    }
}

pub open spec fn bound_subjects(bs: Seq<Binding>) -> Set<Seq<char>> {
    Seq::new(bs.len(), |i: int| binding_subject(bs[i])).to_set()
}

/// The item a row gives: its label, or the resource's local name.
pub open spec fn hit_item(ns: Seq<char>, b: Binding) -> MenuItemView {
    MenuItemView {
        itype: ItemType::TextFile,
        display: match b.label {
            Some(l) => l@,
            None => local_name_of(binding_subject(b)),
        },
        selector: resource_selector(binding_subject(b)),
        host: ns,
        port: 0,
    }
}

/// The items of a query's answer: one per resource, at its first row.
pub open spec fn search_hits(ns: Seq<char>, bs: Seq<Binding>) -> Seq<MenuItemView>
    decreases bs.len(),
{
    if bs.len() == 0 {
        seq![]
    } else if bound_subjects(bs.drop_last()).contains(binding_subject(bs.last())) {
        search_hits(ns, bs.drop_last())
    } else {
        search_hits(ns, bs.drop_last()).push(hit_item(ns, bs.last()))
    }
}

/// The query sent to an endpoint: resources with a value that contains
/// the search text, ignoring case, with their labels where they have one.
pub open spec fn sparql_text(query: Seq<char>) -> Seq<char> {
    "SELECT ?s ?label WHERE {\n  ?s ?p ?o .\n  FILTER(CONTAINS(LCASE(STR(?o)), LCASE(\""@ + query
        + "\")))\n  OPTIONAL { ?s <http://www.w3.org/2000/01/rdf-schema#label> ?label }\n} LIMIT 20"@
}

/// The query text for a search.
pub fn sparql_query(query: &str) -> (r: String)
    ensures
        r@ == sparql_text(query@),
{
    let mut r = String::from_str(
        "SELECT ?s ?label WHERE {\n  ?s ?p ?o .\n  FILTER(CONTAINS(LCASE(STR(?o)), LCASE(\"",
    );
    r.append(query);
    r.append(
        "\")))\n  OPTIONAL { ?s <http://www.w3.org/2000/01/rdf-schema#label> ?label }\n} LIMIT 20",
    );
    r
}

fn seen_before(seen: &Vec<String>, s: &str) -> (r: bool)
    ensures
        r == string_views(seen@).to_set().contains(s@),
{
    let mut i: usize = 0;
    while i < seen.len()
        invariant
            i <= seen@.len(),
            forall|k: int| 0 <= k < i ==> seen@[k]@ != s@,
        decreases seen.len() - i,
    {
        if text_eq(seen[i].as_str(), s) {
            assert(string_views(seen@)[i as int] == s@);
            return true;
        }
        i = i + 1;
    }
    assert(!string_views(seen@).to_set().contains(s@)) by {
        if string_views(seen@).to_set().contains(s@) {
            let k = choose|k: int| 0 <= k < seen@.len() && string_views(seen@)[k] == s@;
        }
    };
    false
}

impl RdfAdapter {
    /// The items of a query's answer, one per resource.
    pub fn search_results(&self, bindings: &Vec<Binding>) -> (r: Vec<MenuItem>)
        ensures
            item_views(r@) == search_hits(self.namespace@, bindings@),
    {
        let mut seen: Vec<String> = Vec::new();
        let mut r: Vec<MenuItem> = Vec::new();
        let mut i: usize = 0;
        assert(string_views(seen@).to_set() =~= bound_subjects(bindings@.take(0)));
        while i < bindings.len()
            invariant
                i <= bindings@.len(),
                string_views(seen@).to_set() == bound_subjects(bindings@.take(i as int)),
                item_views(r@) == search_hits(self.namespace@, bindings@.take(i as int)),
            decreases bindings.len() - i,
        {
            let b = &bindings[i];
            let subject = match &b.subject {
                Some(s) => s.clone(),
                None => String::from_str("unknown"),
            };
            assert(subject@ == binding_subject(*b));
            let ghost prev = bindings@.take(i as int);
            assert(bindings@.take(i as int + 1).drop_last() =~= prev);
            assert(bindings@.take(i as int + 1).last() == *b);
            proof {
                let sp = Seq::new(prev.len(), |k: int| binding_subject(prev[k]));
                let sn = Seq::new(
                    (i + 1) as nat,
                    |k: int| binding_subject(bindings@.take(i as int + 1)[k]),
                );
                assert(sn =~= sp.push(subject@));
                sp.lemma_push_to_set_commute(subject@);
            }
            if !seen_before(&seen, subject.as_str()) {
                let display = match &b.label {
                    Some(l) => l.clone(),
                    None => String::from_str(local_name_str(subject.as_str())),
                };
                let ghost before = item_views(r@);
                r.push(
                    MenuItem {
                        itype: ItemType::TextFile,
                        display,
                        selector: concat("/resource/", encode_uri(subject.as_str()).as_str()),
                        host: self.namespace.clone(),
                        port: 0,
                    },
                );
                assert(item_views(r@) =~= before.push(hit_item(self.namespace@, *b)));
                let ghost sv = string_views(seen@);
                seen.push(subject);
                proof {
                    assert(string_views(seen@) =~= sv.push(binding_subject(*b)));
                    sv.lemma_push_to_set_commute(binding_subject(*b));
                }
            } else {
                assert(string_views(seen@).to_set().insert(binding_subject(*b)) =~= string_views(
                    seen@,
                ).to_set());
            }
            i = i + 1;
        }
        assert(bindings@.take(i as int) =~= bindings@);
        r
    }

    /// Fills the adapter's namespace: registers it, writes the graph where
    /// one was loaded, and stores the root listing.
    pub fn sync_graph(&self, store: &mut LocalStore, graph: Option<&Vec<Triple>>)
        requires
            old(store).wf(),
        ensures
            final(store).wf(),
            final(store)@ == store_put(
                match graph {
                    Some(ts) => with_graph(store_register(old(store)@, self.namespace@), self.namespace@, ts@),
                    None => store_register(old(store)@, self.namespace@),
                },
                self.namespace@,
                seq![],
                NodeView::Menu(
                    graph_root(
                        self.namespace@,
                        match graph {
                            Some(ts) => Some(ts@),
                            None => None,
                        },
                        match self.sparql_endpoint {
                            Some(e) => Some(e@),
                            None => None,
                        },
                    ),
                ),
            ),
    {
        store.register_namespace(self.namespace.as_str());
        let mut root = match graph {
            Some(ts) => self.populate_from_graph(store, ts),
            None => {
                let mut v: Vec<MenuItem> = Vec::new();
                if self.sparql_endpoint.is_some() {
                    v.push(info_item(String::from_str("SPARQL Endpoint")));
                    v.push(info_item(String::from_str("---")));
                    assert(item_views(v@) =~= seq![info_line("SPARQL Endpoint"@), info_line("---"@)]);
                } else {
                    assert(item_views(v@) =~= Seq::<MenuItemView>::empty());
                }
                v
            },
        };
        match &self.sparql_endpoint {
            Some(e) => {
                let ghost before = item_views(root@);
                let d = concat(concat("SPARQL Search (", local_name(e.as_str()).as_str()).as_str(), ")");
                root.push(
                    MenuItem {
                        itype: ItemType::Search,
                        display: d,
                        selector: String::from_str("/sparql"),
                        host: self.namespace.clone(),
                        port: 0,
                    },
                );
                assert(item_views(root@) =~= before.push(root@.last()@));
            },
            None => {},
        }
        store.add_content(self.namespace.as_str(), "", ContentNode::Menu(root));
        proof {
            reveal_strlit("");
            assert(""@ =~= Seq::<char>::empty());
        }
    }

    /// The listing of class `c`.
    pub fn class_menu(&self, c: &str, ts: &Vec<Triple>) -> (r: Vec<MenuItem>)
        ensures
            item_views(r@) == class_listing(self.namespace@, c@, ts@),
    {
        let inst = sorted_instances(ts, c);
        let mut r: Vec<MenuItem> = Vec::new();
        r.push(info_item(concat("Class: ", local_name(c).as_str())));
        r.push(info_item(String::from_str("---")));
        let ghost iv = string_views(inst@);
        let mut k: usize = 0;
        while k < inst.len()
            invariant
                k <= inst@.len(),
                iv == string_views(inst@),
                iv == sorted_of(instance_seq(ts@, c@).to_set()),
                item_views(r@) == seq![info_line("Class: "@ + local_name_of(c@)), info_line("---"@)]
                    + Seq::new(
                    k as nat,
                    |j: int|
                        MenuItemView {
                            itype: ItemType::TextFile,
                            display: local_name_of(iv[j]),
                            selector: resource_selector(iv[j]),
                            host: self.namespace@,
                            port: 0,
                        },
                ),
            decreases inst.len() - k,
        {
            let ghost before = item_views(r@);
            let u = inst[k].as_str();
            r.push(
                MenuItem {
                    itype: ItemType::TextFile,
                    display: local_name(u),
                    selector: concat("/resource/", encode_uri(u).as_str()),
                    host: self.namespace.clone(),
                    port: 0,
                },
            );
            assert(item_views(r@) =~= before.push(r@.last()@));
            k = k + 1;
            assert(item_views(r@) =~= seq![info_line("Class: "@ + local_name_of(c@)), info_line("---"@)]
                + Seq::new(
                k as nat,
                |j: int|
                    MenuItemView {
                        itype: ItemType::TextFile,
                        display: local_name_of(iv[j]),
                        selector: resource_selector(iv[j]),
                        host: self.namespace@,
                        port: 0,
                    },
            ));
        }
        r
    }

    /// The root listing of the given classes.
    pub fn classes_menu(&self, classes: &Vec<String>) -> (r: Vec<MenuItem>)
        ensures
            item_views(r@) == classes_listing(self.namespace@, string_views(classes@)),
    {
        let ghost cv = string_views(classes@);
        let mut r: Vec<MenuItem> = Vec::new();
        r.push(info_item(String::from_str("RDF Classes")));
        r.push(info_item(String::from_str("---")));
        let mut k: usize = 0;
        while k < classes.len()
            invariant
                k <= classes@.len(),
                cv == string_views(classes@),
                item_views(r@) == seq![info_line("RDF Classes"@), info_line("---"@)] + Seq::new(
                    k as nat,
                    |j: int|
                        MenuItemView {
                            itype: ItemType::Menu,
                            display: local_name_of(cv[j]),
                            selector: class_selector(cv[j]),
                            host: self.namespace@,
                            port: 0,
                        },
                ),
            decreases classes.len() - k,
        {
            let ghost before = item_views(r@);
            let u = classes[k].as_str();
            r.push(
                MenuItem {
                    itype: ItemType::Menu,
                    display: local_name(u),
                    selector: concat("/class/", encode_uri(u).as_str()),
                    host: self.namespace.clone(),
                    port: 0,
                },
            );
            assert(item_views(r@) =~= before.push(r@.last()@));
            k = k + 1;
            assert(item_views(r@) =~= seq![info_line("RDF Classes"@), info_line("---"@)] + Seq::new(
                k as nat,
                |j: int|
                    MenuItemView {
                        itype: ItemType::Menu,
                        display: local_name_of(cv[j]),
                        selector: class_selector(cv[j]),
                        host: self.namespace@,
                        port: 0,
                    },
            ));
        }
        r
    }

    /// Writes a graph into the adapter's namespace: a document per resource,
    /// then a listing per class; returns the root listing of the classes.
    pub fn populate_from_graph(&self, store: &mut LocalStore, ts: &Vec<Triple>) -> (r: Vec<MenuItem>)
        requires
            old(store).wf(),
        ensures
            final(store).wf(),
            final(store)@ == with_graph(old(store)@, self.namespace@, ts@),
            item_views(r@) == classes_listing(self.namespace@, sorted_of(class_seq(ts@).to_set())),
            old(store)@.contains_key(self.namespace@) ==> forall|s: Seq<char>|
                #[trigger] subject_seq(ts@).contains(s) ==> store_get(
                    final(store)@,
                    self.namespace@,
                    resource_selector(s),
                ) == Some(NodeView::Document(resource_doc(s, ts@))),
    {
        let ghost s0 = store@;
        let ghost ns = self.namespace@;
        let subjects = sorted_subjects(ts);
        let ghost sv = string_views(subjects@);
        let mut i: usize = 0;
        assert(sv.take(0) =~= Seq::<Seq<char>>::empty());
        while i < subjects.len()
            invariant
                i <= subjects@.len(),
                sv == string_views(subjects@),
                ns == self.namespace@,
                store.wf(),
                store@ == with_resources(s0, ns, sv.take(i as int), ts@),
            decreases subjects.len() - i,
        {
            let u = subjects[i].as_str();
            let sel = concat("/resource/", encode_uri(u).as_str());
            let doc = resource_document(u, ts);
            store.add_content(self.namespace.as_str(), sel.as_str(), ContentNode::Document(doc));
            assert(sv.take(i as int + 1).drop_last() =~= sv.take(i as int));
            i = i + 1;
        }
        assert(sv.take(i as int) =~= sv);
        let ghost s1 = store@;
        let classes = sorted_classes(ts);
        let ghost cv = string_views(classes@);
        let mut k: usize = 0;
        assert(cv.take(0) =~= Seq::<Seq<char>>::empty());
        while k < classes.len()
            invariant
                k <= classes@.len(),
                cv == string_views(classes@),
                ns == self.namespace@,
                store.wf(),
                store@ == with_classes(s1, ns, cv.take(k as int), ts@),
            decreases classes.len() - k,
        {
            let u = classes[k].as_str();
            let sel = concat("/class/", encode_uri(u).as_str());
            let menu = self.class_menu(u, ts);
            store.add_content(self.namespace.as_str(), sel.as_str(), ContentNode::Menu(menu));
            assert(cv.take(k as int + 1).drop_last() =~= cv.take(k as int));
            k = k + 1;
        }
        assert(cv.take(k as int) =~= cv);
        proof {
            if s0.contains_key(ns) {
                assert forall|s: Seq<char>| #[trigger] subject_seq(ts@).contains(s) implies store_get(
                    store@,
                    ns,
                    resource_selector(s),
                ) == Some(NodeView::Document(resource_doc(s, ts@))) by {
                    assert(subject_seq(ts@).to_set().contains(s));
                    assert(sv.to_set().contains(s));
                    assert forall|i: int, j: int| 0 <= i < j < sv.len() implies sv[i] != sv[j] by {
                        if sv[i] == sv[j] {
                            lemma_text_lt_irreflexive(sv[i]);
                        }
                    };
                    lemma_resources_kept(s0, ns, sv, ts@, s);
                    lemma_classes_keep_resource(s1, ns, cv, ts@, s);
                };
            }
        }
        self.classes_menu(&classes)
    }
}

} // verus!
