//! The filesystem adapter's rules: which files are listed and how, how paths
//! and selectors map to each other inside the root, and how the
//! store follows the tree. Reading and writing the disk is the caller's.
use vstd::prelude::*;
use vstd::string::StringExecFns;
use crate::adapters::{AdapterError, SourceAdapter};
use crate::gopher::{
    GopherClient, ItemType, MenuItem, MenuItemView, item_views, listing_items, option_seq,
};
use crate::store::{LocalStore, ContentNode, NodeView, StoreView, store_put};
use crate::text::{chars_of, split_on, views, split, string_of_range, trim_start,
    trim_start_char, text_starts_with, string_views, text_lt, text_less,
    lemma_text_lt_transitive, lemma_text_lt_irreflexive};

verus! {

/// What the caller found at a root directory.
#[derive(Debug, Clone, Copy, PartialEq, Eq, Structural)]
pub enum RootStatus {
    Missing,
    Directory,
    NotDirectory,
}

/// One entry of a directory, as the caller read it.
#[derive(Debug)]
pub struct DirEntryInfo {
    pub name: String,
    pub is_dir: bool,
    pub is_file: bool,
    /// The file's text, where it is a file that decodes as UTF-8.
    pub text: Option<String>,
}

/// Serves a directory tree as a namespace: directories are listings, text
/// files documents, and files with a binary extension binary items.
pub struct FsAdapter {
    namespace: String,
    root: String,
    extensions: Option<Vec<String>>,
    writable: bool,
}

/// The code of a character with ASCII upper case folded to lower case.
pub open spec fn fold_code(c: char) -> u32 {
    if 'A' <= c <= 'Z' {
        (c as u32 + 32) as u32
    } else {
        c as u32
    }
}

/// Equal but for ASCII case.
pub open spec fn eq_ignore_ascii_case(a: Seq<char>, b: Seq<char>) -> bool {
    a.len() == b.len() && forall|i: int| 0 <= i < a.len() ==> fold_code(#[trigger] a[i]) == fold_code(b[i])
}

/// Whether two texts are equal but for ASCII case.
pub fn ascii_eq_ignore_case(a: &str, b: &str) -> (r: bool)
    ensures
        r == eq_ignore_ascii_case(a@, b@),
{
    let x = chars_of(a);
    let y = chars_of(b);
    if x.len() != y.len() {
        return false;
    }
    let mut i: usize = 0;
    while i < x.len()
        invariant
            i <= x@.len(),
            x@.len() == y@.len(),
            x@ == a@,
            y@ == b@,
            forall|k: int| 0 <= k < i ==> fold_code(#[trigger] x@[k]) == fold_code(y@[k]),
        decreases x.len() - i,
    {
        let p = x[i];
        let q = y[i];
        let fp: u32 = if 'A' <= p && p <= 'Z' {
            p as u32 + 32
        } else {
            p as u32
        };
        let fq: u32 = if 'A' <= q && q <= 'Z' {
            q as u32 + 32
        } else {
            q as u32
        };
        if fp != fq {
            return false;
        }
        i = i + 1;
    }
    true
}

/// Whether an extension, compared without ASCII case, marks a binary file.
pub open spec fn binary_extension(e: Seq<char>) -> bool {
    eq_ignore_ascii_case(e, "jpg"@) || eq_ignore_ascii_case(e, "jpeg"@) || eq_ignore_ascii_case(
        e,
        "png"@,
    ) || eq_ignore_ascii_case(e, "gif"@) || eq_ignore_ascii_case(e, "bmp"@)
        || eq_ignore_ascii_case(e, "zip"@) || eq_ignore_ascii_case(e, "tar"@)
        || eq_ignore_ascii_case(e, "gz"@) || eq_ignore_ascii_case(e, "exe"@)
        || eq_ignore_ascii_case(e, "bin"@) || eq_ignore_ascii_case(e, "pdf"@)
}

/// `i` is the position of the last `c` in `s`.
pub open spec fn last_at(s: Seq<char>, c: char, i: int) -> bool {
    0 <= i < s.len() && s[i] == c && forall|k: int| i < k < s.len() ==> s[k] != c
}

/// The extension of a file name: what follows its last dot, where that dot
/// is not the name's first character.
pub open spec fn extension_of(name: Seq<char>) -> Option<Seq<char>> {
    if exists|i: int| last_at(name, '.', i) {
        let i = choose|i: int| last_at(name, '.', i);
        if i == 0 {
            None
        } else {
            Some(name.skip(i + 1))
        }
    } else {
        None
    }
}

/// A configured extension without its leading dot, if it has one.
pub open spec fn bare_extension(e: Seq<char>) -> Seq<char> {
    if e.len() > 0 && e[0] == '.' {
        e.drop_first()
    } else {
        e
    }
}

/// Whether a file name passes an extension filter: with no filter every
/// file does; with one, a file without an extension never does.
pub open spec fn include_file(filter: Option<Seq<Seq<char>>>, name: Seq<char>) -> bool {
    match filter {
        None => true,
        Some(exts) => match extension_of(name) {
            None => false,
            Some(x) => exists|k: int|
                0 <= k < exts.len() && eq_ignore_ascii_case(bare_extension(#[trigger] exts[k]), x),
        },
    }
}

/// Where `root` lies at the start of `path` as whole components.
pub open spec fn under(root: Seq<char>, path: Seq<char>) -> bool {
    root.is_prefix_of(path) && (path.len() == root.len() || path[root.len() as int] == '/' || (
    root.len() > 0 && root.last() == '/'))
}

/// The selector of a path: its part below the root, after a `/`; the root
/// itself is the empty selector. A path outside the root is taken whole.
pub open spec fn selector_of(root: Seq<char>, path: Seq<char>) -> Seq<char> {
    let rel = if under(root, path) {
        trim_start(path.skip(root.len() as int), '/')
    } else {
        path
    };
    if rel.len() == 0 {
        seq![]
    } else {
        seq!['/'] + rel
    }
}

/// `base` joined with `rel` as `Path::join` does: an absolute `rel` stands
/// alone, and otherwise one `/` separates the two.
pub open spec fn join_path(base: Seq<char>, rel: Seq<char>) -> Seq<char> {
    if rel.len() > 0 && rel[0] == '/' {
        rel
    } else if base.len() > 0 && base.last() == '/' {
        base + rel
    } else {
        base + seq!['/'] + rel
    }
}

/// Whether one of the `/`-separated segments of a selector is `..`.
pub open spec fn has_parent_segment(selector: Seq<char>) -> bool {
    exists|k: int| 0 <= k < split(selector, '/').len() && #[trigger] split(selector, '/')[k] == seq!['.', '.']
}

/// The path that a selector names below `root`, before any link is resolved.
pub open spec fn candidate_path(root: Seq<char>, selector: Seq<char>) -> Seq<char> {
    let rel = if selector.len() > 0 && selector[0] == '/' {
        selector.drop_first()
    } else {
        selector
    };
    join_path(root, rel)
}

/// The item that a directory entry gives in its directory's listing.
pub open spec fn entry_item(
    namespace: Seq<char>,
    root: Seq<char>,
    filter: Option<Seq<Seq<char>>>,
    dir: Seq<char>,
    name: Seq<char>,
    is_dir: bool,
    is_file: bool,
) -> Option<MenuItemView> {
    let sel = selector_of(root, join_path(dir, name));
    if name.len() > 0 && name[0] == '.' {
        None
    } else if is_dir {
        Some(MenuItemView { itype: ItemType::Menu, display: name, selector: sel, host: namespace, port: 0 })
    } else if is_file && include_file(filter, name) {
        let binary = match extension_of(name) {
            Some(x) => binary_extension(x),
            None => binary_extension(seq![]),
        };
        Some(
            MenuItemView {
                itype: if binary {
                    ItemType::Binary
                } else {
                    ItemType::TextFile
                },
                display: name,
                selector: sel,
                host: namespace,
                port: 0,
            },
        )
    } else {
        None
    }
}

/// The selectors of the directories above a selector, nearest first, down
/// to the root's empty selector; looks at the first `n` characters.
pub open spec fn ancestors_within(s: Seq<char>, n: int) -> Seq<Seq<char>>
    decreases n,
{
    if n <= 0 {
        seq![]
    } else {
        (if s[n - 1] == '/' {
            seq![s.take(n - 1)]
        } else {
            seq![]
        }) + ancestors_within(s, n - 1)
    }
}

/// The selectors of the directories whose listings a change at `s` touches.
pub open spec fn ancestor_selectors(s: Seq<char>) -> Seq<Seq<char>> {
    ancestors_within(s, s.len() as int)
}

/// A store with every path of namespace `ns` in `keys` removed.
pub open spec fn store_remove_keys(s: StoreView, ns: Seq<char>, keys: Set<Seq<char>>) -> StoreView {
    if s.contains_key(ns) {
        s.insert(ns, s[ns].remove_keys(keys))
    } else {
        s
    }
}

/// The paths below a directory selector: those that start with it and a `/`.
pub open spec fn tree_prefix(selector: Seq<char>) -> Seq<char> {
    if selector.len() > 0 && selector.last() == '/' {
        selector
    } else {
        selector + seq!['/']
    }
}

/// The paths of namespace `ns` that a delete at `selector` removes.
pub open spec fn removed_keys(s: StoreView, ns: Seq<char>, selector: Seq<char>, is_dir: bool) -> Set<
    Seq<char>,
> {
    if is_dir && s.contains_key(ns) {
        s[ns].dom().filter(|p: Seq<char>| tree_prefix(selector).is_prefix_of(p)).insert(selector)
    } else {
        set![selector]
    }
}

/// An extension filter as plain values.
pub open spec fn filter_of(e: Option<Vec<String>>) -> Option<Seq<Seq<char>>> {
    match e {
        None => None,
        Some(v) => Some(Seq::new(v@.len(), |i: int| v@[i]@)),
    }
}

impl SourceAdapter for FsAdapter {
    fn namespace(&self) -> &str {
        self.namespace.as_str()
    }

    fn is_writable(&self) -> bool {
        self.writable
    }
}

impl FsAdapter {
    pub closed spec fn namespace_view(&self) -> Seq<char> {
        self.namespace@
    }

    pub closed spec fn root_view(&self) -> Seq<char> {
        self.root@
    }

    pub closed spec fn writable_view(&self) -> bool {
        self.writable
    }

    /// The extension filter as plain values.
    pub closed spec fn filter_view(&self) -> Option<Seq<Seq<char>>> {
        filter_of(self.extensions)
    }

    /// An adapter for the directory at `root`, which the caller has looked
    /// at (and, for a writable adapter, created where it was missing).
    pub fn new(
        namespace: String,
        root: String,
        extensions: Option<Vec<String>>,
        writable: bool,
        status: RootStatus,
    ) -> (r: Result<FsAdapter, AdapterError>)
        ensures
            status == RootStatus::Directory <==> r is Ok,
            r matches Ok(a) ==> a.namespace_view() == namespace@ && a.root_view() == root@
                && a.writable_view() == writable && a.filter_view() == filter_of(extensions),
            r matches Err(e) ==> e is Config,
    {
        match status {
            RootStatus::Missing => {
                let mut m = String::from_str("Root path does not exist: ");
                m.append(root.as_str());
                Err(AdapterError::Config(m))
            },
            RootStatus::NotDirectory => {
                let mut m = String::from_str("Root path is not a directory: ");
                m.append(root.as_str());
                Err(AdapterError::Config(m))
            },
            RootStatus::Directory => Ok(FsAdapter { namespace, root, extensions, writable }),
        }
    }

    pub fn root(&self) -> (r: &str)
        ensures
            r@ == self.root_view(),
    {
        self.root.as_str()
    }

    /// Whether an extension marks a file as binary.
    pub fn is_binary_extension(ext: &str) -> (r: bool)
        ensures
            r == binary_extension(ext@),
    {
        ascii_eq_ignore_case(ext, "jpg") || ascii_eq_ignore_case(ext, "jpeg")
            || ascii_eq_ignore_case(ext, "png") || ascii_eq_ignore_case(ext, "gif")
            || ascii_eq_ignore_case(ext, "bmp") || ascii_eq_ignore_case(ext, "zip")
            || ascii_eq_ignore_case(ext, "tar") || ascii_eq_ignore_case(ext, "gz")
            || ascii_eq_ignore_case(ext, "exe") || ascii_eq_ignore_case(ext, "bin")
            || ascii_eq_ignore_case(ext, "pdf")
    }

    /// The extension of a file name.
    pub fn extension(name: &str) -> (r: Option<String>)
        ensures
            match r {
                Some(x) => extension_of(name@) == Some(x@),
                None => extension_of(name@) is None,
            },
    {
        let v = chars_of(name);
        let mut i: usize = v.len();
        while i > 0
            invariant
                i <= v@.len(),
                v@ == name@,
                forall|k: int| i <= k < v@.len() ==> v@[k] != '.',
            decreases i,
        {
            if v[i - 1] == '.' {
                assert(last_at(name@, '.', i - 1));
                assert forall|j: int| last_at(name@, '.', j) implies j == i - 1 by {
                    if j < i - 1 {
                        assert(name@[i - 1] == '.');
                    }
                };
                if i == 1 {
                    return None;
                }
                let x = string_of_range(&v, i, v.len());
                assert(x@ =~= name@.skip(i as int));
                return Some(x);
            }
            i = i - 1;
        }
        assert forall|j: int| !last_at(name@, '.', j) by {
            if 0 <= j < name@.len() {
                assert(v@[j] != '.');
            }
        };
        None
    }

    /// Whether a file with this name is listed, under the extension filter.
    pub fn should_include_file(&self, name: &str) -> (r: bool)
        ensures
            r == include_file(self.filter_view(), name@),
    {
        match &self.extensions {
            None => true,
            Some(exts) => {
                match Self::extension(name) {
                    None => false,
                    Some(x) => {
                        let ghost fv = Seq::new(exts@.len(), |i: int| exts@[i]@);
                        let mut k: usize = 0;
                        while k < exts.len()
                            invariant
                                k <= exts@.len(),
                                fv == Seq::new(exts@.len(), |i: int| exts@[i]@),
                                self.extensions == Some(*exts),
                                extension_of(name@) == Some(x@),
                                forall|j: int|
                                    0 <= j < k ==> !eq_ignore_ascii_case(
                                        bare_extension(#[trigger] fv[j]),
                                        x@,
                                    ),
                            decreases exts.len() - k,
                        {
                            let e = exts[k].as_str();
                            assert(fv[k as int] == e@);
                            proof {
                                reveal_strlit(".");
                                if e@.len() > 0 && e@[0] == '.' {
                                    assert(e@.subrange(0, 1) =~= "."@);
                                }
                            }
                            let bare = if text_starts_with(e, ".") {
                                assert(e@[0] == "."@[0]);
                                trim_one(e)
                            } else {
                                String::from_str(e)
                            };
                            assert(bare@ == bare_extension(fv[k as int]));
                            if ascii_eq_ignore_case(bare.as_str(), x.as_str()) {
                                assert(self.filter_view()->0 =~= fv);
                                assert(eq_ignore_ascii_case(bare_extension(fv[k as int]), x@));
                                return true;
                            }
                            k = k + 1;
                        }
                        false
                    },
                }
            },
        }
    }

    /// The selector of a path: `/` and its part below the root; the root
    /// itself maps to the empty selector.
    pub fn path_to_selector(&self, path: &str) -> (r: String)
        ensures
            r@ == selector_of(self.root_view(), path@),
    {
        let rv = chars_of(self.root.as_str());
        let pv = chars_of(path);
        let mut is_under = text_starts_with(path, self.root.as_str());
        if is_under {
            is_under = pv.len() == rv.len() || pv[rv.len()] == '/' || (rv.len() > 0 && rv[rv.len()
                - 1] == '/');
        }
        assert(is_under == under(self.root_view(), path@));
        let rel = if is_under {
            let rest = string_of_range(&pv, rv.len(), pv.len());
            assert(rest@ =~= path@.skip(self.root_view().len() as int));
            trim_start_char(rest.as_str(), '/')
        } else {
            String::from_str(path)
        };
        if rel.unicode_len() == 0 {
            String::new()
        } else {
            let mut r = String::from_str("/");
            r.append(rel.as_str());
            proof {
                reveal_strlit("/");
            }
            r
        }
    }

    /// The path that `selector` names below the root, before links are
    /// resolved; a selector with a `..` segment is rejected before anything
    /// else is looked at.
    pub fn selector_to_path(&self, selector: &str) -> (r: Result<String, AdapterError>)
        ensures
            has_parent_segment(selector@) ==> (r matches Err(AdapterError::PathTraversal(s)) && s@
                == selector@),
            !has_parent_segment(selector@) ==> (r matches Ok(p) && p@ == candidate_path(
                self.root_view(),
                selector@,
            )),
    {
        let sv = chars_of(selector);
        let segs = split_on(&sv, '/');
        let mut k: usize = 0;
        while k < segs.len()
            invariant
                k <= segs@.len(),
                views(segs@) == split(selector@, '/'),
                sv@ == selector@,
                forall|j: int| 0 <= j < k ==> views(segs@)[j] != seq!['.', '.'],
            decreases segs.len() - k,
        {
            let seg = &segs[k];
            assert(seg@ == views(segs@)[k as int]);
            if seg.len() == 2 && seg[0] == '.' && seg[1] == '.' {
                assert(seg@ =~= seq!['.', '.']);
                return Err(AdapterError::PathTraversal(String::from_str(selector)));
            }
            assert(seg@ != seq!['.', '.']) by {
                if seg@.len() == 2 {
                    assert(seg@[0] != '.' || seg@[1] != '.');
                }
            };
            k = k + 1;
        }
        let rel = if sv.len() > 0 && sv[0] == '/' {
            let t = string_of_range(&sv, 1, sv.len());
            assert(t@ =~= selector@.drop_first());
            t
        } else {
            String::from_str(selector)
        };
        Ok(join(self.root.as_str(), rel.as_str()))
    }

    /// Accepts a resolved path only where it lies within the resolved root.
    pub fn check_resolved(selector: &str, resolved: &str, canonical_root: &str) -> (r: Result<
        (),
        AdapterError,
    >)
        ensures
            under(canonical_root@, resolved@) <==> r is Ok,
            r matches Err(e) ==> (e matches AdapterError::PathTraversal(s) && s@ == selector@),
    {
        let rv = chars_of(canonical_root);
        let pv = chars_of(resolved);
        let mut ok = text_starts_with(resolved, canonical_root);
        if ok {
            ok = pv.len() == rv.len() || pv[rv.len()] == '/' || (rv.len() > 0 && rv[rv.len() - 1]
                == '/');
        }
        if ok {
            Ok(())
        } else {
            Err(AdapterError::PathTraversal(String::from_str(selector)))
        }
    }

    /// The path to write for `selector`, accepted only where it stays under
    /// the root once links are resolved. The caller supplies what the disk
    /// shows: how many trailing components of the candidate path do not
    /// exist yet (none when it exists), the canonical form of the deepest
    /// part that does, and the root's canonical form. The path returned is
    /// the candidate itself, not its resolved form.
    pub fn confine(
        &self,
        selector: &str,
        missing: usize,
        canonical_ancestor: &str,
        canonical_root: &str,
    ) -> (r: Result<String, AdapterError>)
        ensures
            has_parent_segment(selector@) ==> (r matches Err(AdapterError::PathTraversal(s)) && s@
                == selector@),
            !has_parent_segment(selector@) ==> ({
                let c = candidate_path(self.root_view(), selector@);
                match resolved_path(c, missing as nat, canonical_ancestor@) {
                    Some(rp) => if under(canonical_root@, rp) {
                        r matches Ok(p) && p@ == c
                    } else {
                        r matches Err(AdapterError::PathTraversal(s)) && s@ == selector@
                    },
                    None => r matches Err(AdapterError::PathTraversal(s)) && s@ == selector@,
                }
            }),
    {
        let candidate = self.selector_to_path(selector)?;
        let cv = chars_of(candidate.as_str());
        let start = match tail_start_of(&cv, missing) {
            Some(i) => i,
            None => {
                return Err(AdapterError::PathTraversal(String::from_str(selector)));
            },
        };
        let resolved = if missing == 0 {
            String::from_str(canonical_ancestor)
        } else {
            let tail = string_of_range(&cv, start, cv.len());
            assert(tail@ =~= candidate@.skip(start as int));
            join(canonical_ancestor, tail.as_str())
        };
        match Self::check_resolved(selector, resolved.as_str(), canonical_root) {
            Ok(()) => Ok(candidate),
            Err(e) => Err(e),
        }
    }

    /// Whether a file with this name, if it is a file, has its text stored
    /// as a document.
    pub fn keeps_text(&self, name: &str) -> (r: bool)
        ensures
            r == (!(name@.len() > 0 && name@[0] == '.') && include_file(self.filter_view(), name@)
                && !(match extension_of(name@) {
                Some(x) => binary_extension(x),
                None => binary_extension(seq![]),
            })),
    {
        proof {
            reveal_strlit("");
            assert(""@ =~= Seq::<char>::empty());
        }
        if starts_with_dot(name) || !self.should_include_file(name) {
            return false;
        }
        let binary = match Self::extension(name) {
            Some(x) => Self::is_binary_extension(x.as_str()),
            None => Self::is_binary_extension(""),
        };
        !binary
    }

    /// A delete is refused with "not found" where nothing is at the path.
    pub fn require_existing(path: &str, exists: bool) -> (r: Result<(), AdapterError>)
        ensures
            exists <==> r is Ok,
            r matches Err(e) ==> (e matches AdapterError::NotFound(p) && p@ == path@),
    {
        if exists {
            Ok(())
        } else {
            Err(AdapterError::NotFound(String::from_str(path)))
        }
    }
}

/// Where the last `m` components of the first `n` characters of `c` begin,
/// looking back from position `n`; `None` where there are fewer.
pub open spec fn tail_start(c: Seq<char>, m: nat, n: int) -> Option<int>
    decreases n,
{
    if m == 0 {
        Some(n)
    } else if n <= 0 {
        None
    } else if c[n - 1] == '/' {
        if m == 1 {
            Some(n)
        } else {
            tail_start(c, (m - 1) as nat, n - 1)
        }
    } else {
        tail_start(c, m, n - 1)
    }
}

/// The resolved form of path `c` whose last `m` components do not exist
/// yet: the canonical form of its deepest existing ancestor, with those
/// components appended.
pub open spec fn resolved_path(c: Seq<char>, m: nat, canonical_ancestor: Seq<char>) -> Option<
    Seq<char>,
> {
    match tail_start(c, m, c.len() as int) {
        None => None,
        Some(i) => Some(
            if m == 0 {
                canonical_ancestor
            } else {
                join_path(canonical_ancestor, c.skip(i))
            },
        ),
    }
}

fn tail_start_of(c: &Vec<char>, missing: usize) -> (r: Option<usize>)
    ensures
        match r {
            Some(i) => i <= c@.len() && tail_start(c@, missing as nat, c@.len() as int) == Some(
                i as int,
            ),
            None => tail_start(c@, missing as nat, c@.len() as int) is None,
        },
{
    let mut n: usize = c.len();
    let mut m: usize = missing;
    if m == 0 {
        return Some(n);
    }
    while n > 0
        invariant
            n <= c@.len(),
            m >= 1,
            tail_start(c@, m as nat, n as int) == tail_start(c@, missing as nat, c@.len() as int),
        decreases n,
    {
        if c[n - 1] == '/' {
            if m == 1 {
                return Some(n);
            }
            m = m - 1;
        }
        n = n - 1;
    }
    None
}

/// `e` placed into `s` after every entry whose name does not come after
/// its own: the step of a stable insertion sort by name.
pub open spec fn insert_by_name(s: Seq<DirEntryInfo>, e: DirEntryInfo) -> Seq<DirEntryInfo>
    decreases s.len(),
{
    if s.len() == 0 {
        seq![e]
    } else if text_lt(e.name@, s[0].name@) {
        seq![e] + s
    } else {
        seq![s[0]] + insert_by_name(s.drop_first(), e)
    }
}

/// Directory entries sorted by name; entries with equal names keep their order.
pub open spec fn sort_by_name(es: Seq<DirEntryInfo>) -> Seq<DirEntryInfo>
    decreases es.len(),
{
    if es.len() == 0 {
        seq![]
    } else {
        insert_by_name(sort_by_name(es.drop_last()), es.last())
    }
}

/// No entry's name comes before the name of an entry ahead of it.
pub open spec fn names_ascending(s: Seq<DirEntryInfo>) -> bool {
    forall|i: int, j: int| 0 <= i < j < s.len() ==> !text_lt(s[j].name@, s[i].name@)
}

proof fn lemma_insert_at(s: Seq<DirEntryInfo>, e: DirEntryInfo, p: int)
    requires
        0 <= p <= s.len(),
        forall|k: int| 0 <= k < p ==> !text_lt(e.name@, #[trigger] s[k].name@),
        p < s.len() ==> text_lt(e.name@, s[p].name@),
    ensures
        insert_by_name(s, e) == s.insert(p, e),
    decreases p,
{
    if p == 0 {
        if s.len() == 0 {
            assert(s.insert(0, e) =~= seq![e]);
        } else {
            assert(s.insert(0, e) =~= seq![e] + s);
        }
    } else {
        let t = s.drop_first();
        assert forall|k: int| 0 <= k < p - 1 implies !text_lt(e.name@, #[trigger] t[k].name@) by {
            assert(t[k] == s[k + 1]);
        };
        if p - 1 < t.len() {
            assert(t[p - 1] == s[p]);
        }
        lemma_insert_at(t, e, p - 1);
        assert(s.insert(p, e) =~= seq![s[0]] + t.insert(p - 1, e));
    }
}

proof fn lemma_insert_keeps_ascending(s: Seq<DirEntryInfo>, e: DirEntryInfo, p: int)
    requires
        names_ascending(s),
        0 <= p <= s.len(),
        forall|k: int| 0 <= k < p ==> !text_lt(e.name@, #[trigger] s[k].name@),
        p < s.len() ==> text_lt(e.name@, s[p].name@),
    ensures
        names_ascending(s.insert(p, e)),
{
    let t = s.insert(p, e);
    assert forall|i: int, j: int| 0 <= i < j < t.len() implies !text_lt(t[j].name@, t[i].name@) by {
        if j == p {
            assert(t[i] == s[i]);
        } else if i == p {
            assert(t[j] == s[j - 1]);
            if text_lt(s[j - 1].name@, e.name@) {
                lemma_text_lt_transitive(s[j - 1].name@, e.name@, s[p].name@);
                if j - 1 == p {
                    lemma_text_lt_irreflexive(s[p].name@);
                }
            }
        } else {
            let a = if i < p { i } else { i - 1 };
            let b = if j < p { j } else { j - 1 };
            assert(t[i] == s[a]);
            assert(t[j] == s[b]);
        }
    };
}

/// Sorts directory entries by name, keeping the order of equal names.
pub fn sort_entries(entries: Vec<DirEntryInfo>) -> (r: Vec<DirEntryInfo>)
    ensures
        r@ == sort_by_name(entries@),
        names_ascending(r@),
{
    let ghost orig = entries@;
    let n = entries.len();
    assert(orig.len() == n);
    let mut rest = entries;
    let mut r: Vec<DirEntryInfo> = Vec::new();
    let mut k: usize = 0;
    assert(orig.take(0) =~= Seq::<DirEntryInfo>::empty());
    assert(orig.skip(0) =~= orig);
    while rest.len() > 0
        invariant
            k <= orig.len(),
            orig.len() <= usize::MAX,
            rest@ == orig.skip(k as int),
            r@ == sort_by_name(orig.take(k as int)),
            names_ascending(r@),
        decreases rest.len(),
    {
        let e = rest.remove(0);
        let mut p: usize = 0;
        while p < r.len() && !text_less(e.name.as_str(), r[p].name.as_str())
            invariant
                p <= r@.len(),
                forall|q: int| 0 <= q < p ==> !text_lt(e.name@, #[trigger] r@[q].name@),
            decreases r.len() - p,
        {
            p = p + 1;
        }
        proof {
            assert(e == orig[k as int]);
            assert(orig.take(k as int + 1).drop_last() =~= orig.take(k as int));
            assert(orig.take(k as int + 1).last() == e);
            lemma_insert_at(r@, e, p as int);
            lemma_insert_keeps_ascending(r@, e, p as int);
            assert(orig.skip(k as int).drop_first() =~= orig.skip(k as int + 1));
        }
        r.insert(p, e);
        assert(k < orig.len());
        k = k + 1;
    }
    assert(orig.skip(k as int).len() == 0);
    assert(orig.take(k as int) =~= orig);
    r
}

/// The listing that a directory's entries give, in their order.
pub open spec fn dir_listing(
    namespace: Seq<char>,
    root: Seq<char>,
    filter: Option<Seq<Seq<char>>>,
    dir: Seq<char>,
    es: Seq<DirEntryInfo>,
) -> Seq<MenuItemView>
    decreases es.len(),
{
    if es.len() == 0 {
        seq![]
    } else {
        dir_listing(namespace, root, filter, dir, es.drop_last()) + option_seq(
            entry_item(namespace, root, filter, dir, es.last().name@, es.last().is_dir, es.last().is_file),
        )
    }
}

/// Whether an entry is a listed text file whose text is stored as a document.
pub open spec fn stores_text(filter: Option<Seq<Seq<char>>>, e: DirEntryInfo) -> bool {
    &&& !(e.name@.len() > 0 && e.name@[0] == '.')
    &&& !e.is_dir
    &&& e.is_file
    &&& include_file(filter, e.name@)
    &&& !(match extension_of(e.name@) {
        Some(x) => binary_extension(x),
        None => binary_extension(seq![]),
    })
    &&& e.text is Some
}

/// The store after the documents of a directory's text files are written.
pub open spec fn with_documents(
    s: StoreView,
    namespace: Seq<char>,
    root: Seq<char>,
    filter: Option<Seq<Seq<char>>>,
    dir: Seq<char>,
    es: Seq<DirEntryInfo>,
) -> StoreView
    decreases es.len(),
{
    if es.len() == 0 {
        s
    } else {
        let prev = with_documents(s, namespace, root, filter, dir, es.drop_last());
        let e = es.last();
        if stores_text(filter, e) {
            store_put(
                prev,
                namespace,
                selector_of(root, join_path(dir, e.name@)),
                NodeView::Document(e.text->0@),
            )
        } else {
            prev
        }
    }
}

/// The paths of a directory's subdirectories, in order.
pub open spec fn subdirectories(dir: Seq<char>, es: Seq<DirEntryInfo>) -> Seq<Seq<char>>
    decreases es.len(),
{
    if es.len() == 0 {
        seq![]
    } else {
        subdirectories(dir, es.drop_last()) + if es.last().is_dir && !(es.last().name@.len() > 0
            && es.last().name@[0] == '.') {
            seq![join_path(dir, es.last().name@)]
        } else {
            seq![]
        }
    }
}

/// The listing of a directory: its override file parsed as a listing where
/// there is one, else one generated from its entries.
pub open spec fn listing_of(
    namespace: Seq<char>,
    root: Seq<char>,
    filter: Option<Seq<Seq<char>>>,
    dir: Seq<char>,
    es: Seq<DirEntryInfo>,
    override_text: Option<Seq<char>>,
) -> Seq<MenuItemView> {
    match override_text {
        Some(t) => listing_items(t),
        None => dir_listing(namespace, root, filter, dir, es),
    }
}

/// A listing generated for a directory names each of its visible entries
/// that is a subdirectory or a listed file, at that entry's selector.
pub proof fn lemma_listing_names_entry(
    namespace: Seq<char>,
    root: Seq<char>,
    filter: Option<Seq<Seq<char>>>,
    dir: Seq<char>,
    es: Seq<DirEntryInfo>,
    k: int,
)
    requires
        0 <= k < es.len(),
        !(es[k].name@.len() > 0 && es[k].name@[0] == '.'),
        es[k].is_dir || (es[k].is_file && include_file(filter, es[k].name@)),
    ensures
        exists|j: int|
            0 <= j < dir_listing(namespace, root, filter, dir, es).len() && #[trigger] dir_listing(
                namespace,
                root,
                filter,
                dir,
                es,
            )[j].selector == selector_of(root, join_path(dir, es[k].name@)) && dir_listing(
                namespace,
                root,
                filter,
                dir,
                es,
            )[j].display == es[k].name@,
    decreases es.len(),
{
    let l = dir_listing(namespace, root, filter, dir, es);
    let prev = dir_listing(namespace, root, filter, dir, es.drop_last());
    if k == es.len() - 1 {
        assert(l[prev.len() as int].selector == selector_of(root, join_path(dir, es[k].name@)));
    } else {
        lemma_listing_names_entry(namespace, root, filter, dir, es.drop_last(), k);
        let j = choose|j: int|
            0 <= j < prev.len() && #[trigger] prev[j].selector == selector_of(
                root,
                join_path(dir, es[k].name@),
            ) && prev[j].display == es[k].name@;
        assert(l[j] == prev[j]);
    }
}

/// The store after listings are written at the given selectors, in order.
pub open spec fn with_listings(st: StoreView, ns: Seq<char>, ls: Seq<(Seq<char>, Seq<MenuItemView>)>) -> StoreView
    decreases ls.len(),
{
    if ls.len() == 0 {
        st
    } else {
        store_put(with_listings(st, ns, ls.drop_last()), ns, ls.last().0, NodeView::Menu(ls.last().1))
    }
}

proof fn lemma_ancestors_shorter(s: Seq<char>, n: int)
    requires
        0 <= n <= s.len(),
    ensures
        forall|k: int| 0 <= k < ancestors_within(s, n).len() ==> #[trigger] ancestors_within(s, n)[k].len() < n,
    decreases n,
{
    if n > 0 {
        lemma_ancestors_shorter(s, n - 1);
        let head: Seq<Seq<char>> = if s[n - 1] == '/' {
            seq![s.take(n - 1)]
        } else {
            seq![]
        };
        let all = ancestors_within(s, n);
        assert(all == head + ancestors_within(s, n - 1));
        assert forall|k: int| 0 <= k < all.len() implies #[trigger] all[k].len() < n by {
            if k >= head.len() {
                assert(all[k] == ancestors_within(s, n - 1)[k - head.len()]);
            }
        };
    }
}

proof fn lemma_listings_keep(st: StoreView, ns: Seq<char>, ls: Seq<(Seq<char>, Seq<MenuItemView>)>, sel: Seq<char>)
    requires
        forall|k: int| 0 <= k < ls.len() ==> #[trigger] ls[k].0 != sel,
    ensures
        crate::store::store_get(with_listings(st, ns, ls), ns, sel) == crate::store::store_get(st, ns, sel),
    decreases ls.len(),
{
    if ls.len() > 0 {
        assert forall|k: int| 0 <= k < ls.drop_last().len() implies #[trigger] ls.drop_last()[k].0 != sel by {
            assert(ls.drop_last()[k] == ls[k]);
        };
        lemma_listings_keep(st, ns, ls.drop_last(), sel);
        assert(ls.last() == ls[ls.len() - 1]);
    }
}

/// Publishing a document and then refreshing the listings of the
/// directories above it leaves the document at its path: no refreshed
/// listing lies at the published selector.
pub proof fn lemma_publish_survives_refresh(
    st: StoreView,
    ns: Seq<char>,
    selector: Seq<char>,
    text: Seq<char>,
    ls: Seq<(Seq<char>, Seq<MenuItemView>)>,
)
    requires
        st.contains_key(ns),
        forall|k: int| 0 <= k < ls.len() ==> ancestor_selectors(selector).contains(#[trigger] ls[k].0),
    ensures
        crate::store::store_get(
            with_listings(store_put(st, ns, selector, NodeView::Document(text)), ns, ls),
            ns,
            selector,
        ) == Some(NodeView::Document(text)),
{
    lemma_ancestors_shorter(selector, selector.len() as int);
    assert forall|k: int| 0 <= k < ls.len() implies #[trigger] ls[k].0 != selector by {
        assert(ancestor_selectors(selector).contains(ls[k].0));
        let j = choose|j: int|
            0 <= j < ancestor_selectors(selector).len() && ancestor_selectors(selector)[j] == ls[k].0;
        assert(ancestor_selectors(selector)[j].len() < selector.len());
    };
    lemma_listings_keep(store_put(st, ns, selector, NodeView::Document(text)), ns, ls, selector);
}

/// Publishing a document and then fetching it gives the text back: the
/// store holds it at the published path.
pub proof fn lemma_publish_then_fetch(s: StoreView, namespace: Seq<char>, selector: Seq<char>, text: Seq<char>)
    requires
        s.contains_key(namespace),
    ensures
        crate::store::store_get(store_put(s, namespace, selector, NodeView::Document(text)), namespace, selector)
            == Some(NodeView::Document(text)),
{
}

impl FsAdapter {
    /// The item that one directory entry gives, if any.
    fn entry_item_of(&self, dir: &str, e: &DirEntryInfo) -> (r: Option<MenuItem>)
        ensures
            match r {
                Some(i) => entry_item(
                    self.namespace_view(),
                    self.root_view(),
                    self.filter_view(),
                    dir@,
                    e.name@,
                    e.is_dir,
                    e.is_file,
                ) == Some(i@),
                None => entry_item(
                    self.namespace_view(),
                    self.root_view(),
                    self.filter_view(),
                    dir@,
                    e.name@,
                    e.is_dir,
                    e.is_file,
                ) is None,
            },
    {
        proof {
            reveal_strlit("");
            assert(""@ =~= Seq::<char>::empty());
        }
        if starts_with_dot(e.name.as_str()) {
            return None;
        }
        let sel = self.path_to_selector(join(dir, e.name.as_str()).as_str());
        if e.is_dir {
            return Some(
                MenuItem {
                    itype: ItemType::Menu,
                    display: e.name.clone(),
                    selector: sel,
                    host: self.namespace.clone(),
                    port: 0,
                },
            );
        }
        if e.is_file && self.should_include_file(e.name.as_str()) {
            let binary = match Self::extension(e.name.as_str()) {
                Some(x) => Self::is_binary_extension(x.as_str()),
                None => Self::is_binary_extension(""),
            };
            Some(
                MenuItem {
                    itype: if binary {
                        ItemType::Binary
                    } else {
                        ItemType::TextFile
                    },
                    display: e.name.clone(),
                    selector: sel,
                    host: self.namespace.clone(),
                    port: 0,
                },
            )
        } else {
            None
        }
    }

    /// The listing generated from a directory's entries, in their order.
    /// Entries are listed in the order given.
    pub fn build_menu_items(&self, dir: &str, entries: &Vec<DirEntryInfo>) -> (r: Vec<MenuItem>)
        ensures
            item_views(r@) == dir_listing(
                self.namespace_view(),
                self.root_view(),
                self.filter_view(),
                dir@,
                entries@,
            ),
    {
        let mut r: Vec<MenuItem> = Vec::new();
        let mut i: usize = 0;
        while i < entries.len()
            invariant
                i <= entries@.len(),
                item_views(r@) == dir_listing(
                    self.namespace_view(),
                    self.root_view(),
                    self.filter_view(),
                    dir@,
                    entries@.take(i as int),
                ),
            decreases entries.len() - i,
        {
            let ghost before = item_views(r@);
            assert(entries@.take(i as int + 1).drop_last() =~= entries@.take(i as int));
            match self.entry_item_of(dir, &entries[i]) {
                Some(item) => {
                    r.push(item);
                    assert(item_views(r@) =~= before.push(r@.last()@));
                },
                None => {},
            }
            i = i + 1;
            assert(item_views(r@) =~= dir_listing(
                self.namespace_view(),
                self.root_view(),
                self.filter_view(),
                dir@,
                entries@.take(i as int),
            ));
        }
        assert(entries@.take(i as int) =~= entries@);
        r
    }

    /// A directory's listing: the override file's text parsed as a listing
    /// where there is one, else generated from the entries.
    /// (Entries are taken in the order given.)
    fn listing_in_order(
        &self,
        dir: &str,
        entries: &Vec<DirEntryInfo>,
        override_text: Option<&str>,
    ) -> (r: Vec<MenuItem>)
        ensures
            item_views(r@) == listing_of(
                self.namespace_view(),
                self.root_view(),
                self.filter_view(),
                dir@,
                entries@,
                match override_text {
                    Some(t) => Some(t@),
                    None => None,
                },
            ),
    {
        match override_text {
            Some(t) => GopherClient::parse_menu_lines(t),
            None => self.build_menu_items(dir, entries),
        }
    }

    /// Writes a directory into the store: each listed text file as a
    /// document, then the directory's listing. Returns the subdirectories
    /// to visit next, in order.
    /// (Entries are taken in the order given.)
    fn index_in_order(
        &self,
        store: &mut LocalStore,
        dir: &str,
        entries: &Vec<DirEntryInfo>,
        override_text: Option<&str>,
    ) -> (r: Vec<String>)
        requires
            old(store).wf(),
        ensures
            final(store).wf(),
            final(store)@ == store_put(
                with_documents(
                    old(store)@,
                    self.namespace_view(),
                    self.root_view(),
                    self.filter_view(),
                    dir@,
                    entries@,
                ),
                self.namespace_view(),
                selector_of(self.root_view(), dir@),
                NodeView::Menu(
                    listing_of(
                        self.namespace_view(),
                        self.root_view(),
                        self.filter_view(),
                        dir@,
                        entries@,
                        match override_text {
                            Some(t) => Some(t@),
                            None => None,
                        },
                    ),
                ),
            ),
            string_views(r@) == subdirectories(dir@, entries@),
    {
        let ghost s0 = store@;
        let mut subdirs: Vec<String> = Vec::new();
        let mut i: usize = 0;
        while i < entries.len()
            invariant
                i <= entries@.len(),
                store.wf(),
                store@ == with_documents(
                    s0,
                    self.namespace_view(),
                    self.root_view(),
                    self.filter_view(),
                    dir@,
                    entries@.take(i as int),
                ),
                string_views(subdirs@) == subdirectories(dir@, entries@.take(i as int)),
            decreases entries.len() - i,
        {
            let e = &entries[i];
            assert(entries@.take(i as int + 1).drop_last() =~= entries@.take(i as int));
            assert(entries@.take(i as int + 1).last() == *e);
            let ghost before = string_views(subdirs@);
            let hidden = starts_with_dot(e.name.as_str());
            proof {
                reveal_strlit("");
                assert(""@ =~= Seq::<char>::empty());
            }
            if !hidden && e.is_dir {
                subdirs.push(join(dir, e.name.as_str()));
                assert(string_views(subdirs@) =~= before.push(join_path(dir@, e.name@)));
            } else {
                assert(string_views(subdirs@) =~= before);
            }
            if !hidden && !e.is_dir && e.is_file && self.should_include_file(e.name.as_str()) {
                let binary = match Self::extension(e.name.as_str()) {
                    Some(x) => Self::is_binary_extension(x.as_str()),
                    None => Self::is_binary_extension(""),
                };
                if !binary {
                    match &e.text {
                        Some(t) => {
                            let sel = self.path_to_selector(join(dir, e.name.as_str()).as_str());
                            store.add_content(
                                self.namespace.as_str(),
                                sel.as_str(),
                                ContentNode::Document(t.clone()),
                            );
                        },
                        None => {},
                    }
                }
            }
            i = i + 1;
        }
        assert(entries@.take(i as int) =~= entries@);
        let listing = self.listing_in_order(dir, entries, override_text);
        let sel = self.path_to_selector(dir);
        store.add_content(self.namespace.as_str(), sel.as_str(), ContentNode::Menu(listing));
        subdirs
    }

    /// Replaces a directory's listing in the store after a change below it.
    /// (Entries are taken in the order given.)
    fn refresh_in_order(
        &self,
        store: &mut LocalStore,
        dir: &str,
        entries: &Vec<DirEntryInfo>,
        override_text: Option<&str>,
    )
        requires
            old(store).wf(),
        ensures
            final(store).wf(),
            final(store)@ == store_put(
                old(store)@,
                self.namespace_view(),
                selector_of(self.root_view(), dir@),
                NodeView::Menu(
                    listing_of(
                        self.namespace_view(),
                        self.root_view(),
                        self.filter_view(),
                        dir@,
                        entries@,
                        match override_text {
                            Some(t) => Some(t@),
                            None => None,
                        },
                    ),
                ),
            ),
    {
        let listing = self.listing_in_order(dir, entries, override_text);
        let sel = self.path_to_selector(dir);
        store.add_content(self.namespace.as_str(), sel.as_str(), ContentNode::Menu(listing));
    }

    /// A directory's listing: the override file's text parsed as a listing
    /// where there is one, else generated from the entries.
    /// Entries are first sorted by name.
    pub fn directory_listing(
        &self,
        dir: &str,
        entries: Vec<DirEntryInfo>,
        override_text: Option<&str>,
    ) -> (r: Vec<MenuItem>)
        ensures
            item_views(r@) == listing_of(
                self.namespace_view(),
                self.root_view(),
                self.filter_view(),
                dir@,
                sort_by_name(entries@),
                match override_text {
                    Some(t) => Some(t@),
                    None => None,
                },
            ),
    {
        let sorted = sort_entries(entries);
        self.listing_in_order(dir, &sorted, override_text)
    }

    /// Writes a directory into the store: each listed text file as a
    /// document, then the directory's listing. Returns the subdirectories
    /// to visit next, in order.
    /// Entries are first sorted by name.
    pub fn index_directory(
        &self,
        store: &mut LocalStore,
        dir: &str,
        entries: Vec<DirEntryInfo>,
        override_text: Option<&str>,
    ) -> (r: Vec<String>)
        requires
            old(store).wf(),
        ensures
            final(store).wf(),
            final(store)@ == store_put(
                with_documents(
                    old(store)@,
                    self.namespace_view(),
                    self.root_view(),
                    self.filter_view(),
                    dir@,
                    sort_by_name(entries@),
                ),
                self.namespace_view(),
                selector_of(self.root_view(), dir@),
                NodeView::Menu(
                    listing_of(
                        self.namespace_view(),
                        self.root_view(),
                        self.filter_view(),
                        dir@,
                        sort_by_name(entries@),
                        match override_text {
                            Some(t) => Some(t@),
                            None => None,
                        },
                    ),
                ),
            ),
            string_views(r@) == subdirectories(dir@, sort_by_name(entries@)),
    {
        let sorted = sort_entries(entries);
        self.index_in_order(store, dir, &sorted, override_text)
    }

    /// Replaces a directory's listing in the store after a change below it.
    /// Entries are first sorted by name.
    pub fn refresh_directory(
        &self,
        store: &mut LocalStore,
        dir: &str,
        entries: Vec<DirEntryInfo>,
        override_text: Option<&str>,
    )
        requires
            old(store).wf(),
        ensures
            final(store).wf(),
            final(store)@ == store_put(
                old(store)@,
                self.namespace_view(),
                selector_of(self.root_view(), dir@),
                NodeView::Menu(
                    listing_of(
                        self.namespace_view(),
                        self.root_view(),
                        self.filter_view(),
                        dir@,
                        sort_by_name(entries@),
                        match override_text {
                            Some(t) => Some(t@),
                            None => None,
                        },
                    ),
                ),
            ),
    {
        let sorted = sort_entries(entries);
        self.refresh_in_order(store, dir, &sorted, override_text)
    }

    /// The path that a publish or delete at `selector` works on: refused
    /// where the adapter does not accept writes, or where the selector
    /// climbs out with `..`.
    pub fn write_path(&self, selector: &str) -> (r: Result<String, AdapterError>)
        ensures
            !self.writable_view() ==> (r matches Err(AdapterError::NotWritable(n)) && n@ == self.namespace_view()),
            self.writable_view() && has_parent_segment(selector@) ==> (r matches Err(
                AdapterError::PathTraversal(s),
            ) && s@ == selector@),
            self.writable_view() && !has_parent_segment(selector@) ==> (r matches Ok(p) && p@
                == candidate_path(self.root_view(), selector@)),
    {
        if !self.writable {
            return Err(AdapterError::NotWritable(self.namespace.clone()));
        }
        self.selector_to_path(selector)
    }

    /// Records a published document in the store.
    pub fn record_document(&self, store: &mut LocalStore, selector: &str, content: &str)
        requires
            old(store).wf(),
        ensures
            final(store).wf(),
            final(store)@ == store_put(
                old(store)@,
                self.namespace_view(),
                selector@,
                NodeView::Document(content@),
            ),
    {
        store.add_content(
            self.namespace.as_str(),
            selector,
            ContentNode::Document(String::from_str(content)),
        );
    }

    /// Drops from the store what a delete at `selector` removed from disk: for
    /// a directory, every path below it and its own entry; for a file, its
    /// entry.
    pub fn forget(&self, store: &mut LocalStore, selector: &str, is_dir: bool)
        requires
            old(store).wf(),
        ensures
            final(store).wf(),
            final(store)@ == store_remove_keys(
                old(store)@,
                self.namespace_view(),
                removed_keys(old(store)@, self.namespace_view(), selector@, is_dir),
            ),
    {
        let ghost s0 = store@;
        let ghost ns = self.namespace_view();
        if is_dir {
            let prefix = prefix_of_tree(selector);
            let keys = store.selectors_with_prefix(self.namespace.as_str(), prefix.as_str());
            let ghost ks = string_views(keys@);
            let mut i: usize = 0;
            assert(ks.take(0).to_set() =~= Set::<Seq<char>>::empty());
            assert(s0 == store_remove_keys(s0, ns, Set::empty())) by {
                if s0.contains_key(ns) {
                    assert(s0[ns].remove_keys(Set::empty()) =~= s0[ns]);
                    assert(s0.insert(ns, s0[ns]) =~= s0);
                }
            };
            while i < keys.len()
                invariant
                    i <= keys@.len(),
                    store.wf(),
                    ks == string_views(keys@),
                    ns == self.namespace_view(),
                    store@ == store_remove_keys(s0, ns, ks.take(i as int).to_set()),
                decreases keys.len() - i,
            {
                let ghost prev = store@;
                store.remove_content(self.namespace.as_str(), keys[i].as_str());
                proof {
                    assert(keys@[i as int]@ == ks[i as int]);
                    assert(ks.take(i as int + 1) =~= ks.take(i as int).push(ks[i as int]));
                    ks.take(i as int).lemma_push_to_set_commute(ks[i as int]);
                    if s0.contains_key(ns) {
                        assert(prev.contains_key(ns));
                        assert(prev[ns] == s0[ns].remove_keys(ks.take(i as int).to_set()));
                        assert(s0[ns].remove_keys(ks.take(i as int).to_set()).remove(ks[i as int])
                            =~= s0[ns].remove_keys(ks.take(i as int + 1).to_set()));
                        assert(store@ == prev.insert(ns, prev[ns].remove(ks[i as int])));
                    } else {
                        assert(prev == s0);
                    }
                    assert(store@ =~= store_remove_keys(s0, ns, ks.take(i as int + 1).to_set()));
                }
                i = i + 1;
            }
            let ghost mid = ks.take(i as int).to_set();
            store.remove_content(self.namespace.as_str(), selector);
            proof {
                assert(ks.take(i as int) =~= ks);
                if s0.contains_key(ns) {
                    let want = s0[ns].dom().filter(
                        |p: Seq<char>| tree_prefix(selector@).is_prefix_of(p),
                    );
                    assert(mid =~= want) by {
                        assert forall|p: Seq<char>| mid.contains(p) implies want.contains(p) by {
                            let k = choose|k: int| 0 <= k < ks.len() && ks[k] == p;
                            assert(keys@[k]@ == p);
                        };
                        assert forall|p: Seq<char>| want.contains(p) implies mid.contains(p) by {
                            let k = choose|k: int| 0 <= k < keys@.len() && keys@[k]@ == p;
                            assert(ks[k] == p);
                        };
                    };
                    assert(s0[ns].remove_keys(mid).remove(selector@) =~= s0[ns].remove_keys(
                        want.insert(selector@),
                    ));
                }
                assert(store@ =~= store_remove_keys(
                    s0,
                    ns,
                    removed_keys(s0, ns, selector@, is_dir),
                ));
            }
        } else {
            store.remove_content(self.namespace.as_str(), selector);
            proof {
                if s0.contains_key(ns) {
                    assert(s0[ns].remove(selector@) =~= s0[ns].remove_keys(set![selector@]));
                }
                assert(store@ =~= store_remove_keys(
                    s0,
                    ns,
                    removed_keys(s0, ns, selector@, is_dir),
                ));
            }
        }
    }
}

/// The selectors of the directories above `selector` whose listings a
/// change there touches, nearest first, ending with the root's.
pub fn ancestor_selectors_of(selector: &str) -> (r: Vec<String>)
    ensures
        string_views(r@) == ancestor_selectors(selector@),
{
    let v = chars_of(selector);
    let mut r: Vec<String> = Vec::new();
    let mut n: usize = v.len();
    assert(string_views(r@) + ancestors_within(selector@, n as int) =~= ancestor_selectors(
        selector@,
    ));
    while n > 0
        invariant
            n <= v@.len(),
            v@ == selector@,
            string_views(r@) + ancestors_within(selector@, n as int) == ancestor_selectors(
                selector@,
            ),
        decreases n,
    {
        let ghost before = string_views(r@);
        if v[n - 1] == '/' {
            let p = string_of_range(&v, 0, n - 1);
            assert(p@ =~= selector@.take(n - 1));
            r.push(p);
            assert(string_views(r@) =~= before + seq![selector@.take(n - 1)]);
        } else {
            assert(string_views(r@) =~= before);
        }
        assert(ancestors_within(selector@, n as int) == (if selector@[n - 1] == '/' {
            seq![selector@.take(n - 1)]
        } else {
            seq![]
        }) + ancestors_within(selector@, n - 1));
        n = n - 1;
        assert(string_views(r@) + ancestors_within(selector@, n as int) =~= before + (
        ancestors_within(selector@, n as int + 1)));
    }
    assert(string_views(r@) =~= string_views(r@) + ancestors_within(selector@, 0));
    r
}

/// The prefix that marks the paths below a directory selector.
fn prefix_of_tree(selector: &str) -> (r: String)
    ensures
        r@ == tree_prefix(selector@),
{
    let v = chars_of(selector);
    let mut r = String::from_str(selector);
    if !(v.len() > 0 && v[v.len() - 1] == '/') {
        r.append("/");
        proof {
            reveal_strlit("/");
        }
    }
    r
}

/// Whether a name starts with a dot.
fn starts_with_dot(name: &str) -> (r: bool)
    ensures
        r == (name@.len() > 0 && name@[0] == '.'),
{
    let v = chars_of(name);
    v.len() > 0 && v[0] == '.'
}

/// `s` without its first character.
fn trim_one(s: &str) -> (r: String)
    requires
        s@.len() > 0,
    ensures
        r@ == s@.drop_first(),
{
    let v = chars_of(s);
    let r = string_of_range(&v, 1, v.len());
    assert(r@ =~= s@.drop_first());
    r
}

/// `base` joined with `rel` as `Path::join` does.
pub fn join(base: &str, rel: &str) -> (r: String)
    ensures
        r@ == join_path(base@, rel@),
{
    let bv = chars_of(base);
    let rv = chars_of(rel);
    if rv.len() > 0 && rv[0] == '/' {
        return String::from_str(rel);
    }
    let mut r = String::from_str(base);
    if !(bv.len() > 0 && bv[bv.len() - 1] == '/') {
        r.append("/");
        proof {
            reveal_strlit("/");
        }
    }
    r.append(rel);
    r
}

} // verus!
