//! Adapter configuration and the construction of adapters from it.
use vstd::prelude::*;
use vstd::string::StringExecFns;
use crate::adapters::AdapterError;
use crate::fs::{FsAdapter, RootStatus, filter_of};
use crate::sources::{RdfAdapter, RdfFormat, RssAdapter, format_named};
use crate::text::{string_views, chars_of, copy_opt};

verus! {

/// One configured adapter.
#[derive(Debug)]
pub enum AdapterConfig {
    Rss { namespace: String, url: String },
    Fs { namespace: String, root: String, extensions: Option<Vec<String>>, writable: bool },
    Rdf {
        namespace: String,
        source: Option<String>,
        format: String,
        sparql_endpoint: Option<String>,
    },
}

/// The terminal browser's settings.
#[derive(Debug)]
pub struct TuiConfig {
    pub url: Option<String>,
    pub sources: Vec<String>,
    pub adapter: Vec<AdapterConfig>,
}

/// The server's settings.
#[derive(Debug)]
pub struct Config {
    pub adapter: Vec<AdapterConfig>,
}

/// An adapter built from its configuration.
pub enum Adapter {
    Rss(RssAdapter),
    Fs(FsAdapter),
    Rdf(RdfAdapter),
}

pub open spec fn config_namespace(c: AdapterConfig) -> Seq<char> {
    match c {
        AdapterConfig::Rss { namespace, .. } => namespace@,
        AdapterConfig::Fs { namespace, .. } => namespace@,
        AdapterConfig::Rdf { namespace, .. } => namespace@,
    }
}

/// The browse addresses of the configured namespaces, each as `namespace/`,
/// in order; an empty namespace gives none.
pub open spec fn namespace_addresses(cs: Seq<AdapterConfig>) -> Seq<Seq<char>>
    decreases cs.len(),
{
    if cs.len() == 0 {
        seq![]
    } else {
        namespace_addresses(cs.drop_last()) + if config_namespace(cs.last()).len() == 0 {
            seq![]
        } else {
            seq![config_namespace(cs.last()) + seq!['/']]
        }
    }
}

/// Whether `a` is the adapter that configuration `c` describes.
pub open spec fn built_from(c: AdapterConfig, a: Adapter) -> bool {
    match c {
        AdapterConfig::Rss { namespace, url } => match a {
            Adapter::Rss(r) => r.namespace == namespace && r.url == url,
            _ => false,
        },
        AdapterConfig::Fs { namespace, root, extensions, writable } => match a {
            Adapter::Fs(f) => f.namespace_view() == namespace@ && f.root_view() == root@
                && f.writable_view() == writable && f.filter_view() == filter_of(extensions),
            _ => false,
        },
        AdapterConfig::Rdf { namespace, source, format, sparql_endpoint } => match a {
            Adapter::Rdf(r) => r.namespace == namespace && r.source == source && format_named(
                format@,
            ) == Some(r.format) && r.sparql_endpoint == sparql_endpoint,
            _ => false,
        },
    }
}

/// Whether a configuration can be turned into an adapter: a graph source
/// needs a known format, and a directory must be one.
pub open spec fn config_ok(c: AdapterConfig, status: RootStatus) -> bool {
    match c {
        AdapterConfig::Rss { .. } => true,
        AdapterConfig::Fs { .. } => status == RootStatus::Directory,
        AdapterConfig::Rdf { format, .. } => format_named(format@) is Some,
    }
}

impl TuiConfig {
    /// Settings with nothing configured.
    pub fn empty() -> (r: TuiConfig)
        ensures
            r.url is None,
            r.sources@.len() == 0,
            r.adapter@.len() == 0,
    {
        TuiConfig { url: None, sources: Vec::new(), adapter: Vec::new() }
    }

    /// The browse addresses of the configured adapters' namespaces.
    pub fn adapter_namespaces(&self) -> (r: Vec<String>)
        ensures
            string_views(r@) == namespace_addresses(self.adapter@),
    {
        let mut r: Vec<String> = Vec::new();
        let mut i: usize = 0;
        while i < self.adapter.len()
            invariant
                i <= self.adapter@.len(),
                string_views(r@) == namespace_addresses(self.adapter@.take(i as int)),
            decreases self.adapter.len() - i,
        {
            let ns = match &self.adapter[i] {
                AdapterConfig::Rss { namespace, .. } => namespace,
                AdapterConfig::Fs { namespace, .. } => namespace,
                AdapterConfig::Rdf { namespace, .. } => namespace,
            };
            let ghost before = string_views(r@);
            assert(self.adapter@.take(i as int + 1).drop_last() =~= self.adapter@.take(i as int));
            assert(ns@ == config_namespace(self.adapter@[i as int]));
            if chars_of(ns.as_str()).len() > 0 {
                let mut a = ns.clone();
                a.append("/");
                proof {
                    reveal_strlit("/");
                    assert("/"@ =~= seq!['/']);
                }
                assert(a@ =~= ns@ + seq!['/']);
                r.push(a);
                assert(string_views(r@) =~= before.push(ns@ + seq!['/']));
            } else {
                assert(string_views(r@) =~= before);
            }
            i = i + 1;
        }
        assert(self.adapter@.take(i as int) =~= self.adapter@);
        r
    }
}

fn copy_strings(v: &Vec<String>) -> (r: Vec<String>)
    ensures
        r@ == v@,
{
    let mut r: Vec<String> = Vec::new();
    let mut i: usize = 0;
    while i < v.len()
        invariant
            i <= v@.len(),
            r@ == v@.take(i as int),
        decreases v.len() - i,
    {
        r.push(v[i].clone());
        i = i + 1;
        assert(r@ =~= v@.take(i as int));
    }
    assert(v@.take(i as int) =~= v@);
    r
}

/// Builds the adapters that a configuration names, in order. `root_status`
/// holds, for each entry, what the caller found at a directory adapter's
/// root (and is ignored for other entries). Fails on the first entry that
/// cannot be built: an unknown graph format, or a root that is no directory.
pub fn create_adapters(configs: &Vec<AdapterConfig>, root_status: &Vec<RootStatus>) -> (r: Result<
    Vec<Adapter>,
    AdapterError,
>)
    requires
        root_status@.len() == configs@.len(),
    ensures
        r is Ok <==> forall|k: int|
            0 <= k < configs@.len() ==> config_ok(#[trigger] configs@[k], root_status@[k]),
        r matches Ok(v) ==> v@.len() == configs@.len() && forall|k: int|
            0 <= k < v@.len() ==> built_from(configs@[k], #[trigger] v@[k]),
        r matches Err(e) ==> (e is Config),
{
    let mut out: Vec<Adapter> = Vec::new();
    let mut i: usize = 0;
    while i < configs.len()
        invariant
            i <= configs@.len(),
            root_status@.len() == configs@.len(),
            out@.len() == i,
            forall|k: int| 0 <= k < i ==> built_from(configs@[k], #[trigger] out@[k]),
            forall|k: int| 0 <= k < i ==> config_ok(#[trigger] configs@[k], root_status@[k]),
        decreases configs.len() - i,
    {
        match &configs[i] {
            AdapterConfig::Rss { namespace, url } => {
                out.push(Adapter::Rss(RssAdapter::new(namespace.clone(), url.clone())));
            },
            AdapterConfig::Fs { namespace, root, extensions, writable } => {
                let exts = match extensions {
                    Some(v) => Some(copy_strings(v)),
                    None => None,
                };
                assert(filter_of(exts) =~~= filter_of(*extensions));
                match FsAdapter::new(namespace.clone(), root.clone(), exts, *writable, root_status[i]) {
                    Ok(a) => out.push(Adapter::Fs(a)),
                    Err(e) => {
                        return Err(e);
                    },
                }
            },
            AdapterConfig::Rdf { namespace, source, format, sparql_endpoint } => {
                match RdfFormat::from_name(format.as_str()) {
                    Some(f) => {
                        out.push(
                            Adapter::Rdf(
                                RdfAdapter::new(
                                    namespace.clone(),
                                    copy_opt(source),
                                    f,
                                    copy_opt(sparql_endpoint),
                                ),
                            ),
                        );
                    },
                    None => {
                        let mut m = String::from_str("Unknown RDF format: ");
                        m.append(format.as_str());
                        m.append(". Use turtle, rdfxml, or ntriples");
                        return Err(AdapterError::Config(m));
                    },
                }
            },
        }
        i = i + 1;
    }
    Ok(out)
}

} // verus!
