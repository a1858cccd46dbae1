//! The syndication and graph-data adapters: their settings, and the naming
//! rules by which they turn identifiers into safe address components.
use vstd::prelude::*;
use vstd::string::{StringExecFns, StrSliceExecFns};
use crate::adapters::SourceAdapter;
use crate::text::{chars_of, push_char, string_of_range};

verus! {

broadcast use vstd::string::group_string_axioms;

/// Serves a syndication feed: entries become documents, categories listings.
pub struct RssAdapter {
    pub namespace: String,
    pub url: String,
}

impl RssAdapter {
    pub fn new(namespace: String, url: String) -> (r: RssAdapter)
        ensures
            r.namespace == namespace,
            r.url == url,
    {
        RssAdapter { namespace, url }
    }
}

impl SourceAdapter for RssAdapter {
    fn namespace(&self) -> &str {
        self.namespace.as_str()
    }

    fn is_writable(&self) -> bool {
        false
    }
}

/// Serializations of graph data.
#[derive(Debug, Clone, Copy, PartialEq, Eq, Structural)]
pub enum RdfFormat {
    Turtle,
    RdfXml,
    NTriples,
}

/// The format that a configured name stands for.
pub open spec fn format_named(name: Seq<char>) -> Option<RdfFormat> {
    if name == "turtle"@ || name == "ttl"@ {
        Some(RdfFormat::Turtle)
    } else if name == "rdfxml"@ || name == "rdf/xml"@ || name == "xml"@ {
        Some(RdfFormat::RdfXml)
    } else if name == "ntriples"@ || name == "nt"@ {
        Some(RdfFormat::NTriples)
    } else {
        None
    }
}

impl RdfFormat {
    /// The format of a configured name, if it is one of the known names.
    pub fn from_name(name: &str) -> (r: Option<RdfFormat>)
        ensures
            r == format_named(name@),
    {
        let n = String::from_str(name);
        if n == String::from_str("turtle") || n == String::from_str("ttl") {
            Some(RdfFormat::Turtle)
        } else if n == String::from_str("rdfxml") || n == String::from_str("rdf/xml") || n
            == String::from_str("xml") {
            Some(RdfFormat::RdfXml)
        } else if n == String::from_str("ntriples") || n == String::from_str("nt") {
            Some(RdfFormat::NTriples)
        } else {
            None
        }
    }
}

/// The format a graph source is read in when none is configured.
pub fn default_rdf_format() -> (r: String)
    ensures
        r@ == "turtle"@,
{
    String::from_str("turtle")
}

/// Serves graph data: classes become listings, resources documents.
pub struct RdfAdapter {
    pub namespace: String,
    pub source: Option<String>,
    pub format: RdfFormat,
    pub sparql_endpoint: Option<String>,
}

impl RdfAdapter {
    pub fn new(
        namespace: String,
        source: Option<String>,
        format: RdfFormat,
        sparql_endpoint: Option<String>,
    ) -> (r: RdfAdapter)
        ensures
            r.namespace == namespace,
            r.source == source,
            r.format == format,
            r.sparql_endpoint == sparql_endpoint,
    {
        RdfAdapter { namespace, source, format, sparql_endpoint }
    }
}

impl SourceAdapter for RdfAdapter {
    fn namespace(&self) -> &str {
        self.namespace.as_str()
    }

    fn is_writable(&self) -> bool {
        false
    }
}

/// The code of one character in an address component: `_` is the escape
/// character, so `_` itself becomes `__`, a slash `_s` and a fragment
/// marker `_h`; every other character stands for itself.
pub open spec fn char_code(c: char) -> Seq<char> {
    if c == '_' {
        seq!['_', '_']
    } else if c == '/' {
        seq!['_', 's']
    } else if c == '#' {
        seq!['_', 'h']
    } else {
        seq![c]
    }
}

/// An identifier as a safe address component: each character replaced by
/// its code.
pub open spec fn encoded_uri(uri: Seq<char>) -> Seq<char>
    decreases uri.len(),
{
    if uri.len() == 0 {
        seq![]
    } else {
        char_code(uri[0]) + encoded_uri(uri.drop_first())
    }
}

proof fn lemma_encoded_push(s: Seq<char>, c: char)
    ensures
        encoded_uri(s.push(c)) == encoded_uri(s) + char_code(c),
    decreases s.len(),
{
    if s.len() == 0 {
        assert(s.push(c).drop_first() =~= Seq::<char>::empty());
        assert(s.push(c)[0] == c);
        assert(encoded_uri(Seq::<char>::empty()) =~= Seq::<char>::empty());
        assert(encoded_uri(s.push(c)) == char_code(c) + encoded_uri(Seq::<char>::empty()));
        assert(encoded_uri(s.push(c)) =~= char_code(c));
    } else {
        assert(s.push(c).drop_first() =~= s.drop_first().push(c));
        assert(s.push(c)[0] == s[0]);
        lemma_encoded_push(s.drop_first(), c);
        assert(encoded_uri(s.push(c)) =~= encoded_uri(s) + char_code(c));
    }
}

/// An encoded identifier holds no slash and no fragment marker.
pub proof fn lemma_encoded_is_safe(uri: Seq<char>)
    ensures
        forall|i: int|
            0 <= i < encoded_uri(uri).len() ==> #[trigger] encoded_uri(uri)[i] != '/'
                && encoded_uri(uri)[i] != '#',
    decreases uri.len(),
{
    if uri.len() > 0 {
        lemma_encoded_is_safe(uri.drop_first());
        let a = char_code(uri[0]);
        let b = encoded_uri(uri.drop_first());
        assert forall|i: int| 0 <= i < (a + b).len() implies #[trigger] (a + b)[i] != '/' && (a
            + b)[i] != '#' by {
            if i >= a.len() {
                assert((a + b)[i] == b[i - a.len()]);
            }
        };
    }
}

/// Different identifiers have different encodings.
pub proof fn lemma_encoding_injective(a: Seq<char>, b: Seq<char>)
    requires
        encoded_uri(a) == encoded_uri(b),
    ensures
        a == b,
    decreases a.len(),
{
    if a.len() == 0 {
        if b.len() > 0 {
            assert(encoded_uri(b).len() > 0);
        }
        assert(a =~= b);
    } else {
        if b.len() == 0 {
            assert(encoded_uri(a).len() > 0);
        }
        let ca = char_code(a[0]);
        let cb = char_code(b[0]);
        let ea = encoded_uri(a);
        assert(ea[0] == ca[0]);
        assert(ea[0] == cb[0]);
        if ca.len() == 2 {
            assert(ea[1] == ca[1]);
            assert(ea[1] == cb[1]);
        }
        assert(a[0] == b[0]);
        assert(ea.subrange(ca.len() as int, ea.len() as int) =~= encoded_uri(a.drop_first()));
        assert(ea.subrange(cb.len() as int, ea.len() as int) =~= encoded_uri(b.drop_first()));
        lemma_encoding_injective(a.drop_first(), b.drop_first());
        assert(a =~= seq![a[0]] + a.drop_first());
        assert(b =~= seq![b[0]] + b.drop_first());
    }
}

/// Encodes an identifier for use as an address component.
pub fn encode_uri(uri: &str) -> (r: String)
    ensures
        r@ == encoded_uri(uri@),
        forall|i: int| 0 <= i < r@.len() ==> #[trigger] r@[i] != '/' && r@[i] != '#',
{
    let v = chars_of(uri);
    let mut r = String::new();
    let mut i: usize = 0;
    assert(v@.take(0) =~= Seq::<char>::empty());
    while i < v.len()
        invariant
            i <= v@.len(),
            v@ == uri@,
            r@ == encoded_uri(v@.take(i as int)),
        decreases v.len() - i,
    {
        let c = v[i];
        if c == '_' {
            push_char(&mut r, '_');
            push_char(&mut r, '_');
        } else if c == '/' {
            push_char(&mut r, '_');
            push_char(&mut r, 's');
        } else if c == '#' {
            push_char(&mut r, '_');
            push_char(&mut r, 'h');
        } else {
            push_char(&mut r, c);
        }
        proof {
            assert(v@.take(i as int + 1) =~= v@.take(i as int).push(c));
            lemma_encoded_push(v@.take(i as int), c);
        }
        assert(r@ =~= encoded_uri(v@.take(i as int + 1)));
        i = i + 1;
    }
    assert(v@.take(i as int) =~= v@);
    proof {
        lemma_encoded_is_safe(uri@);
    }
    r
}

/// `i` is the position of the last `c` in `s`.
pub open spec fn last_index(s: Seq<char>, c: char, i: int) -> bool {
    0 <= i < s.len() && s[i] == c && forall|k: int| i < k < s.len() ==> s[k] != c
}

/// The local name of an identifier: what follows its last `#`, or where it
/// has none, its last `/`; an identifier with neither is its own name.
pub open spec fn local_name_of(uri: Seq<char>) -> Seq<char> {
    if exists|i: int| last_index(uri, '#', i) {
        uri.skip((choose|i: int| last_index(uri, '#', i)) + 1)
    } else if exists|i: int| last_index(uri, '/', i) {
        uri.skip((choose|i: int| last_index(uri, '/', i)) + 1)
    } else {
        uri
    }
}

/// Where the local name of `v` starts.
fn local_name_start(v: &Vec<char>) -> (r: usize)
    ensures
        r <= v@.len(),
        v@.skip(r as int) == local_name_of(v@),
{
    let mut i: usize = v.len();
    while i > 0
        invariant
            i <= v@.len(),
            forall|k: int| i <= k < v@.len() ==> v@[k] != '#',
        decreases i,
    {
        if v[i - 1] == '#' {
            assert(last_index(v@, '#', i - 1));
            assert forall|j: int| last_index(v@, '#', j) implies j == i - 1 by {
                if j < i - 1 {
                    assert(v@[i - 1] == '#');
                }
            };
            return i;
        }
        i = i - 1;
    }
    assert(!exists|j: int| last_index(v@, '#', j)) by {
        assert forall|j: int| !last_index(v@, '#', j) by {
            if 0 <= j < v@.len() {
                assert(v@[j] != '#');
            }
        };
    };
    let mut i: usize = v.len();
    while i > 0
        invariant
            i <= v@.len(),
            forall|k: int| i <= k < v@.len() ==> v@[k] != '/',
            !exists|j: int| last_index(v@, '#', j),
        decreases i,
    {
        if v[i - 1] == '/' {
            assert(last_index(v@, '/', i - 1));
            assert forall|j: int| last_index(v@, '/', j) implies j == i - 1 by {
                if j < i - 1 {
                    assert(v@[i - 1] == '/');
                }
            };
            return i;
        }
        i = i - 1;
    }
    assert(!exists|j: int| last_index(v@, '/', j)) by {
        assert forall|j: int| !last_index(v@, '/', j) by {
            if 0 <= j < v@.len() {
                assert(v@[j] != '/');
            }
        };
    };
    assert(v@.skip(0) =~= v@);
    0
}

/// The local name of an identifier.
pub fn local_name(uri: &str) -> (r: String)
    ensures
        r@ == local_name_of(uri@),
{
    let v = chars_of(uri);
    let start = local_name_start(&v);
    let r = string_of_range(&v, start, v.len());
    assert(r@ =~= v@.skip(start as int));
    r
}

/// The local name of an identifier, as a slice of it.
pub fn local_name_str(uri: &str) -> (r: &str)
    ensures
        r@ == local_name_of(uri@),
{
    let v = chars_of(uri);
    let start = local_name_start(&v);
    let r = uri.substring_char(start, v.len());
    assert(r@ =~= v@.skip(start as int));
    r
}

} // verus!
