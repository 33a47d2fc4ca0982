use vstd::prelude::*;
use crate::format::{PackageManifestError, ResourceFormat};
use crate::hash::base32_text;
use crate::lock_file::{LockFile, LockFileError, LockFileInfo, ResourceLock, ResourceLockData};
use crate::manifest::{PackageManifest, ResourceInfo};
use crate::text::{chars_of, ends_with_text, push_char, starts_with, string_of};
use crate::url::{lemma_normalize_url_idempotent, normalize_url, normalize_url_spec};

verus! {

/// Errors of a resolve that the resolver itself decides.
#[derive(Debug)]
pub enum PackagesResolverError {
    ArchiveExtractionError(String),
    LockFileError(LockFileError),
    PackageManifestError(PackageManifestError),
    /// The content of a resource hashes to `current`, but its manifest
    /// declared `expected` (both in base32).
    HashMismatch { current: String, expected: String },
}

/// The root package URLs of a resolve, without repeats.
#[derive(Debug)]
pub struct PackagesResolver {
    pub root_packages: Vec<String>,
}

/// Whether a URL is in a list.
pub open spec fn has_url(v: Seq<String>, u: Seq<char>) -> bool {
    exists|i: int| 0 <= i < v.len() && #[trigger] v[i]@ == u
}

fn contains_url(v: &Vec<String>, u: &String) -> (r: bool)
    ensures
        r == has_url(v@, u@),
{
    let mut i: usize = 0;
    while i < v.len()
        invariant
            i <= v@.len(),
            forall|j: int| 0 <= j < i ==> (#[trigger] v@[j])@ != u@,
        decreases v.len() - i,
    {
        if v[i].eq(u) {
            return true;
        }
        i += 1;
    }
    false
}

impl PackagesResolver {
    /// The root URLs as a set of texts.
    pub open spec fn roots(&self) -> Set<Seq<char>> {
        self.root_packages@.map_values(|s: String| s@).to_set()
    }

    /// A resolver with no root packages.
    pub fn new() -> (r: PackagesResolver)
        ensures
            r.roots() == Set::<Seq<char>>::empty(),
    {
        let r = PackagesResolver { root_packages: Vec::new() };
        assert(r.root_packages@.map_values(|s: String| s@) =~= Seq::<Seq<char>>::empty());
        r
    }

    /// A resolver with the given root package URLs.
    pub fn with_packages(packages: Vec<String>) -> (r: PackagesResolver)
        ensures
            r.roots() == packages@.map_values(|s: String| s@).to_set(),
    {
        let mut r = PackagesResolver::new();
        let mut i: usize = 0;
        let ghost src = packages@;
        assert(src.subrange(0, 0).map_values(|s: String| s@) =~= Seq::<Seq<char>>::empty());
        while i < packages.len()
            invariant
                i <= src.len(),
                src == packages@,
                r.roots() == src.subrange(0, i as int).map_values(|s: String| s@).to_set(),
            decreases packages.len() - i,
        {
            let p = packages[i].clone();
            proof {
                assert(src.subrange(0, i + 1).map_values(|s: String| s@) =~= src.subrange(
                    0,
                    i as int,
                ).map_values(|s: String| s@) + seq![p@]);
                Seq::lemma_to_set_insert_commutes(src.subrange(0, i as int).map_values(|s: String| s@), p@);
            }
            r.add_package(p);
            i += 1;
        }
        assert(src.subrange(0, i as int) =~= src);
        r
    }

    /// Add a root package URL.
    pub fn add_package(&mut self, url: String)
        ensures
            final(self).roots() == old(self).roots().insert(url@),
    {
        let ghost before = self.root_packages@.map_values(|s: String| s@);
        if !contains_url(&self.root_packages, &url) {
            let ghost u = url@;
            self.root_packages.push(url);
            proof {
                assert(self.root_packages@.map_values(|s: String| s@) =~= before.push(u));
                assert(before.push(u).to_set() =~= before.to_set().insert(u)) by {
                    Seq::lemma_to_set_insert_commutes(before, u);
                    assert(before.push(u) =~= before + seq![u]);
                }
            }
        } else {
            proof {
                let j = choose|j: int| 0 <= j < self.root_packages@.len() && #[trigger] self.root_packages@[j]@ == url@;
                assert(before[j] == url@);
                assert(before.to_set().contains(url@));
                assert(before.to_set().insert(url@) =~= before.to_set());
            }
        }
    }

    /// The root package URLs.
    pub fn root_packages(&self) -> (r: &Vec<String>)
        ensures
            r == &self.root_packages,
    {
        &self.root_packages
    }
}

/// A package manifest to download.
#[derive(Debug)]
pub struct PackageFetch {
    /// Normalized URL of the manifest.
    pub url: String,
    /// URL of the package's folder, against which its relative URIs resolve.
    pub root_url: String,
    pub is_root: bool,
}

/// A non-package resource to download.
#[derive(Debug)]
pub struct ResourceFetch {
    /// Normalized URL of the resource.
    pub url: String,
    pub format: ResourceFormat,
    /// The hash its manifest declared, if any.
    pub expected: Option<crate::hash::Hash>,
}

/// A reference waiting for the lock id of its target.
#[derive(Debug)]
pub struct Reference {
    pub slot: usize,
    pub name: String,
    pub parent: u32,
    pub is_input: bool,
}

/// A declared resource waiting to be looked at.
#[derive(Debug)]
pub struct PendingResource {
    pub slot: usize,
    pub root_url: String,
    pub uri: String,
    pub format: ResourceFormat,
    pub hash: Option<crate::hash::Hash>,
}

/// The state of a resolve between two rounds of downloads.
///
/// A slot stands for one declared reference until the lock id of its target
/// is known; it is filled with the target's `(url, format)` key.
#[derive(Debug)]
pub struct ResolveState {
    pub pending_packages: Vec<(String, usize, bool)>,
    pub pending_resources: Vec<PendingResource>,
    pub requested: Vec<(String, ResourceFormat)>,
    /// Keys handed out for download and not recorded yet.
    pub outstanding: Vec<(String, ResourceFormat)>,
    pub indexes: Vec<(String, ResourceFormat, u32)>,
    pub slots: Vec<Option<(String, ResourceFormat)>>,
    pub references: Vec<Reference>,
    pub resources: Vec<ResourceLock>,
    pub root: Vec<u32>,
}

/// Whether every id of an optional name to id table is below `n`.
pub open spec fn refs_below(o: Option<Vec<(String, u32)>>, n: int) -> bool {
    match o {
        Some(v) => forall|k: int| 0 <= k < v@.len() ==> (#[trigger] v@[k]).1 < n,
        None => true,
    }
}

/// Whether a locked resource fits a lock of `n` resources: packages carry
/// both tables, other resources neither, and every id is below `n`.
pub open spec fn resource_fits(r: ResourceLock, n: int) -> bool {
    &&& (r.format == ResourceFormat::Package) == r.inputs.is_some()
    &&& (r.format == ResourceFormat::Package) == r.outputs.is_some()
    &&& refs_below(r.inputs, n)
    &&& refs_below(r.outputs, n)
}

/// Whether a lock file's ids all point into its resources, and only
/// packages carry input and output tables.
pub open spec fn lock_well_formed(l: LockFile) -> bool {
    &&& forall|i: int| 0 <= i < l.lock.root@.len() ==> (#[trigger] l.lock.root@[i]) < l.resources@.len()
    &&& forall|i: int| 0 <= i < l.resources@.len() ==> resource_fits(#[trigger] l.resources@[i], l.resources@.len() as int)
}

/// Whether a key is among the keys of a list.
pub open spec fn has_key(v: Seq<(String, ResourceFormat)>, u: Seq<char>, f: ResourceFormat) -> bool {
    exists|i: int| 0 <= i < v.len() && (#[trigger] v[i]).0@ == u && v[i].1 == f
}

fn contains_key(v: &Vec<(String, ResourceFormat)>, u: &String, f: ResourceFormat) -> (r: bool)
    ensures
        r == has_key(v@, u@, f),
{
    let mut i: usize = 0;
    while i < v.len()
        invariant
            i <= v@.len(),
            forall|j: int| 0 <= j < i ==> !((#[trigger] v@[j]).0@ == u@ && v@[j].1 == f),
        decreases v.len() - i,
    {
        if v[i].0.eq(u) && v[i].1 == f {
            return true;
        }
        i += 1;
    }
    false
}

/// The URL of a package's manifest: `/package.json` is appended when
/// missing.
pub open spec fn manifest_url(u: Seq<char>) -> Seq<char> {
    if crate::text::has_suffix(u, "/package.json"@) {
        u
    } else {
        u + "/package.json"@
    }
}

/// The URL of the folder of a manifest: the manifest URL without its
/// trailing `package.json`.
pub open spec fn folder_url(u: Seq<char>) -> Seq<char> {
    if crate::text::has_suffix(u, "package.json"@) {
        u.subrange(0, u.len() - 12)
    } else {
        u
    }
}

/// The URL a declared URI stands for: URIs starting with `http` are
/// absolute, others resolve against the package's folder.
pub open spec fn resource_url(root_url: Seq<char>, uri: Seq<char>) -> Seq<char> {
    if crate::text::has_prefix(uri, "http"@) {
        uri
    } else {
        root_url + "/"@ + uri
    }
}

fn append_text(s: String, t: &str) -> (r: String)
    ensures
        r@ == s@ + t@,
{
    s.concat(t)
}

/// Complete a package URL with `/package.json` when it is missing.
pub fn complete_manifest_url(url: &String) -> (r: String)
    ensures
        r@ == manifest_url(url@),
{
    let c = chars_of(url.as_str());
    if ends_with_text(c.as_slice(), "/package.json") {
        url.clone()
    } else {
        append_text(url.clone(), "/package.json")
    }
}

fn folder_of(url: &String) -> (r: String)
    ensures
        r@ == folder_url(url@),
{
    let c = chars_of(url.as_str());
    if ends_with_text(c.as_slice(), "package.json") {
        proof {
            reveal_strlit("package.json");
        }
        string_of(crate::text::slice_of(c.as_slice(), 0, c.len() - 12).as_slice())
    } else {
        url.clone()
    }
}

fn join_url(root_url: &String, uri: &String) -> (r: String)
    ensures
        r@ == resource_url(root_url@, uri@),
{
    let c = chars_of(uri.as_str());
    let h = chars_of("http");
    if starts_with(c.as_slice(), h.as_slice()) {
        uri.clone()
    } else {
        let mut s = root_url.clone();
        push_char(&mut s, '/');
        proof {
            reveal_strlit("/");
            assert(s@ =~= root_url@ + "/"@);
        }
        s.concat(uri.as_str())
    }
}

/// Whether no name occurs twice in a name to id table.
pub open spec fn names_unique(t: Seq<(String, u32)>) -> bool {
    forall|a: int, b: int| 0 <= a < b < t.len() ==> t[a].0@ != t[b].0@
}

/// Whether a name to id table maps `name` to `id`.
pub open spec fn has_entry(t: Seq<(String, u32)>, name: Seq<char>, id: u32) -> bool {
    exists|q: int| 0 <= q < t.len() && (#[trigger] t[q]).0@ == name && t[q].1 == id
}

/// The inputs (or outputs) table of a resource, empty when it has none.
pub open spec fn table_of(r: ResourceLock, is_input: bool) -> Seq<(String, u32)> {
    match (if is_input { r.inputs } else { r.outputs }) {
        Some(v) => v@,
        None => Seq::empty(),
    }
}

/// Set `name` to `id` in a name to id table, replacing an earlier id.
fn set_ref(v: &mut Vec<(String, u32)>, name: String, id: u32, n: Ghost<int>)
    requires
        forall|k: int| 0 <= k < old(v)@.len() ==> (#[trigger] old(v)@[k]).1 < n@,
        id < n@,
        names_unique(old(v)@),
    ensures
        forall|k: int| 0 <= k < final(v)@.len() ==> (#[trigger] final(v)@[k]).1 < n@,
        names_unique(final(v)@),
        has_entry(final(v)@, name@, id),
        forall|q: int| 0 <= q < old(v)@.len() && (#[trigger] old(v)@[q]).0@ != name@ ==> has_entry(final(v)@, old(v)@[q].0@, old(v)@[q].1),
        forall|q: int| 0 <= q < final(v)@.len() ==> ((#[trigger] final(v)@[q]).0@ == name@ && final(v)@[q].1 == id)
            || (final(v)@[q].0@ != name@ && has_entry(old(v)@, final(v)@[q].0@, final(v)@[q].1)),
{
    let ghost g = v@;
    let ghost nm = name@;
    let mut i: usize = 0;
    while i < v.len()
        invariant
            v@ == g,
            g == old(v)@,
            nm == name@,
            names_unique(g),
            id < n@,
            forall|k: int| 0 <= k < g.len() ==> (#[trigger] g[k]).1 < n@,
            i <= v@.len(),
            forall|k: int| 0 <= k < i ==> (#[trigger] g[k]).0@ != nm,
        decreases v.len() - i,
    {
        if v[i].0.eq(&name) {
            v.set(i, (name, id));
            proof {
                assert(v@ == g.update(i as int, (v@[i as int].0, id)));
                assert(v@[i as int].0@ == nm);
                assert forall|k: int| 0 <= k < v@.len() && k != i implies (#[trigger] v@[k]) == g[k] && g[k].0@ != nm by {
                    if k < i {
                    } else {
                        assert(g[i as int].0@ != g[k].0@);
                    }
                }
                assert(has_entry(v@, nm, id)) by {
                    assert(v@[i as int].0@ == nm && v@[i as int].1 == id);
                }
                assert forall|q: int| 0 <= q < g.len() && (#[trigger] g[q]).0@ != nm implies has_entry(v@, g[q].0@, g[q].1) by {
                    assert(q != i);
                    assert(v@[q] == g[q]);
                }
                assert forall|q: int| 0 <= q < v@.len() implies ((#[trigger] v@[q]).0@ == nm && v@[q].1 == id)
                    || (v@[q].0@ != nm && has_entry(g, v@[q].0@, v@[q].1)) by {
                    if q != i {
                        assert(v@[q] == g[q]);
                    }
                }
                assert forall|a: int, b: int| 0 <= a < b < v@.len() implies v@[a].0@ != v@[b].0@ by {
                    if a != i && b != i {
                        assert(v@[a] == g[a] && v@[b] == g[b]);
                    } else if a == i {
                        assert(v@[b] == g[b]);
                    } else {
                        assert(v@[a] == g[a]);
                    }
                }
                assert forall|k: int| 0 <= k < v@.len() implies (#[trigger] v@[k]).1 < n@ by {
                    if k != i {
                        assert(v@[k] == g[k]);
                    }
                }
            }
            return;
        }
        i += 1;
    }
    v.push((name, id));
    proof {
        let last = v@.len() - 1;
        assert(v@[last].0@ == nm && v@[last].1 == id);
        assert(has_entry(v@, nm, id));
        assert forall|q: int| 0 <= q < g.len() && (#[trigger] g[q]).0@ != nm implies has_entry(v@, g[q].0@, g[q].1) by {
            assert(v@[q] == g[q]);
        }
        assert forall|q: int| 0 <= q < v@.len() implies ((#[trigger] v@[q]).0@ == nm && v@[q].1 == id)
            || (v@[q].0@ != nm && has_entry(g, v@[q].0@, v@[q].1)) by {
            if q < last {
                assert(v@[q] == g[q]);
            }
        }
        assert forall|a: int, b: int| 0 <= a < b < v@.len() implies v@[a].0@ != v@[b].0@ by {
            if b < last {
                assert(v@[a] == g[a] && v@[b] == g[b]);
            } else {
                assert(v@[a] == g[a]);
            }
        }
    }
}

/// Every locked or outstanding key is requested, normalized and held once.
pub open spec fn keys_ok_parts(
    res: Seq<ResourceLock>,
    out: Seq<(String, ResourceFormat)>,
    req: Seq<(String, ResourceFormat)>,
) -> bool {
    &&& forall|i: int, j: int| 0 <= i < j < res.len() ==> res_key(res[i]) != res_key(res[j])
    &&& forall|i: int, j: int| 0 <= i < j < out.len() ==> req_key(out[i]) != req_key(out[j])
    &&& forall|i: int, k: int| 0 <= i < res.len() && 0 <= k < out.len() ==> res_key(res[i]) != req_key(out[k])
    &&& forall|i: int| 0 <= i < res.len() ==> has_key(req, (#[trigger] res[i]).url@, res[i].format)
    &&& forall|k: int| 0 <= k < out.len() ==> has_key(req, (#[trigger] out[k]).0@, out[k].1)
    &&& forall|i: int| 0 <= i < res.len() ==> normalize_url_spec((#[trigger] res[i]).url@) == res[i].url@
    &&& forall|k: int| 0 <= k < out.len() ==> normalize_url_spec((#[trigger] out[k]).0@) == out[k].0@
}

/// Requesting a new normalized key keeps the keys in order.
proof fn lemma_keys_after_request(
    res: Seq<ResourceLock>,
    out: Seq<(String, ResourceFormat)>,
    req: Seq<(String, ResourceFormat)>,
    key: String,
    f: ResourceFormat,
)
    requires
        keys_ok_parts(res, out, req),
        !has_key(req, key@, f),
        normalize_url_spec(key@) == key@,
    ensures
        keys_ok_parts(res, out.push((key, f)), req.push((key, f))),
{
    let out2 = out.push((key, f));
    let req2 = req.push((key, f));
    assert forall|i: int| 0 <= i < res.len() implies has_key(req2, (#[trigger] res[i]).url@, res[i].format) by {
        let q = choose|q: int| 0 <= q < req.len() && (#[trigger] req[q]).0@ == res[i].url@ && req[q].1 == res[i].format;
        assert(req2[q] == req[q]);
    }
    assert forall|k: int| 0 <= k < out2.len() implies has_key(req2, (#[trigger] out2[k]).0@, out2[k].1) by {
        if k < out.len() {
            assert(out2[k] == out[k]);
            let q = choose|q: int| 0 <= q < req.len() && (#[trigger] req[q]).0@ == out[k].0@ && req[q].1 == out[k].1;
            assert(req2[q] == req[q]);
        } else {
            assert(req2[req.len() as int] == (key, f));
        }
    }
    assert forall|i: int, j: int| 0 <= i < j < out2.len() implies req_key(out2[i]) != req_key(out2[j]) by {
        if j == out.len() {
            assert(out2[i] == out[i]);
            if req_key(out[i]) == (key@, f) {
                assert(has_key(req, out[i].0@, out[i].1));
            }
        } else {
            assert(out2[i] == out[i] && out2[j] == out[j]);
        }
    }
    assert forall|i: int, k: int| 0 <= i < res.len() && 0 <= k < out2.len() implies res_key(res[i]) != req_key(out2[k]) by {
        if k == out.len() {
            if res_key(res[i]) == (key@, f) {
                assert(has_key(req, res[i].url@, res[i].format));
            }
        } else {
            assert(out2[k] == out[k]);
        }
    }
    assert forall|k: int| 0 <= k < out2.len() implies normalize_url_spec((#[trigger] out2[k]).0@) == out2[k].0@ by {
        if k < out.len() {
            assert(out2[k] == out[k]);
        }
    }
}

/// Recording an outstanding key as a locked resource keeps the keys in
/// order.
proof fn lemma_keys_after_record(
    res: Seq<ResourceLock>,
    out: Seq<(String, ResourceFormat)>,
    req: Seq<(String, ResourceFormat)>,
    k: int,
    entry: ResourceLock,
)
    requires
        keys_ok_parts(res, out, req),
        0 <= k < out.len(),
        req_key(out[k]) == res_key(entry),
    ensures
        keys_ok_parts(res.push(entry), out.remove(k), req),
{
    let res2 = res.push(entry);
    let out2 = out.remove(k);
    assert forall|i: int| 0 <= i < out2.len() implies out2[i] == out[if i < k { i } else { i + 1 }] by {}
    assert forall|i: int, j: int| 0 <= i < j < res2.len() implies res_key(res2[i]) != res_key(res2[j]) by {
        if j == res.len() {
            assert(res2[i] == res[i]);
        } else {
            assert(res2[i] == res[i] && res2[j] == res[j]);
        }
    }
    assert forall|i: int, j: int| 0 <= i < j < out2.len() implies req_key(out2[i]) != req_key(out2[j]) by {
        let i2 = if i < k { i } else { i + 1 };
        let j2 = if j < k { j } else { j + 1 };
        assert(out2[i] == out[i2] && out2[j] == out[j2]);
    }
    assert forall|i: int, m: int| 0 <= i < res2.len() && 0 <= m < out2.len() implies res_key(res2[i]) != req_key(out2[m]) by {
        let m2 = if m < k { m } else { m + 1 };
        assert(out2[m] == out[m2]);
        if i == res.len() {
            assert(req_key(out[k]) != req_key(out[m2]) || k == m2);
        } else {
            assert(res2[i] == res[i]);
        }
    }
    assert forall|i: int| 0 <= i < res2.len() implies has_key(req, (#[trigger] res2[i]).url@, res2[i].format) by {
        if i == res.len() {
            assert(has_key(req, out[k].0@, out[k].1));
        } else {
            assert(res2[i] == res[i]);
        }
    }
    assert forall|m: int| 0 <= m < out2.len() implies has_key(req, (#[trigger] out2[m]).0@, out2[m].1) by {
        let m2 = if m < k { m } else { m + 1 };
        assert(out2[m] == out[m2]);
    }
    assert forall|i: int| 0 <= i < res2.len() implies normalize_url_spec((#[trigger] res2[i]).url@) == res2[i].url@ by {
        if i == res.len() {
            assert(normalize_url_spec(out[k].0@) == out[k].0@);
        } else {
            assert(res2[i] == res[i]);
        }
    }
    assert forall|m: int| 0 <= m < out2.len() implies normalize_url_spec((#[trigger] out2[m]).0@) == out2[m].0@ by {
        let m2 = if m < k { m } else { m + 1 };
        assert(out2[m] == out[m2]);
    }
}

/// Whether two references name the same entry of the same table.
pub open spec fn same_ref_name(a: Reference, b: Reference) -> bool {
    a.parent == b.parent && a.is_input == b.is_input && a.name@ == b.name@
}

/// Whether a table holds the entry a reference resolved to `target` asks
/// for (nothing is asked when the target was not locked).
pub open spec fn patched(t: Seq<(String, u32)>, name: Seq<char>, target: Option<int>) -> bool {
    match target {
        Some(k) => has_entry(t, name, k as u32),
        None => true,
    }
}

/// The key a pending resource is requested under: its absolute,
/// normalized URL and its format.
pub open spec fn pending_key(it: PendingResource) -> (Seq<char>, ResourceFormat) {
    (normalize_url_spec(resource_url(it.root_url@, it.uri@)), it.format)
}

/// The key of a resource fetch.
pub open spec fn fetch_key(f: ResourceFetch) -> (Seq<char>, ResourceFormat) {
    (f.url@, f.format)
}

/// Whether a fetch for a key is among the fetches.
pub open spec fn has_fetch(out: Seq<ResourceFetch>, key: (Seq<char>, ResourceFormat)) -> bool {
    exists|i: int| 0 <= i < out.len() && fetch_key(#[trigger] out[i]) == key
}

/// Whether a fetch stands for a pending resource from position `lo` on,
/// with that resource's declared hash.
pub open spec fn from_pending(q: Seq<PendingResource>, lo: int, f: ResourceFetch) -> bool {
    exists|j: int| lo <= j < q.len() && pending_key(#[trigger] q[j]) == fetch_key(f) && f.expected == q[j].hash
}

/// The manifest URL a queued package is fetched from.
pub open spec fn queued_url(p: (String, usize, bool)) -> Seq<char> {
    normalize_url_spec(manifest_url(p.0@))
}

/// Whether a manifest fetch for a URL is among the fetches.
pub open spec fn has_package_fetch(out: Seq<PackageFetch>, u: Seq<char>) -> bool {
    exists|i: int| 0 <= i < out.len() && (#[trigger] out[i]).url@ == u
}

/// Whether a manifest fetch stands for a queued package before position
/// `hi`, with that package's root flag.
pub open spec fn from_queued(q: Seq<(String, usize, bool)>, hi: int, f: PackageFetch) -> bool {
    exists|j: int| 0 <= j < hi && j < q.len() && queued_url(#[trigger] q[j]) == f.url@ && f.is_root == q[j].2
}

/// Whether a reference of package `p`, direction `d`, named `name` is
/// recorded.
pub open spec fn has_ref(refs: Seq<Reference>, p: u32, d: bool, name: Seq<char>) -> bool {
    exists|i: int| 0 <= i < refs.len() && (#[trigger] refs[i]).parent == p && refs[i].is_input == d && refs[i].name@ == name
}

/// Whether a reference's target waits in the pending resources as one of
/// the declared resources of that name, resolved against `root`.
pub open spec fn queued_ref(
    pending: Seq<PendingResource>,
    declared: Seq<(String, ResourceInfo)>,
    root: Seq<char>,
    rf: Reference,
) -> bool {
    exists|k: int, j: int| 0 <= k < pending.len() && 0 <= j < declared.len() && (#[trigger] pending[k]).slot == rf.slot
        && (#[trigger] declared[j]).0@ == rf.name@ && pending[k].root_url@ == root
        && pending[k].uri@ == declared[j].1.uri@ && pending[k].format == declared[j].1.format
        && pending[k].hash == declared[j].1.hash
}

/// Whether a package URL is queued.
pub open spec fn has_pending_package(pp: Seq<(String, usize, bool)>, u: Seq<char>) -> bool {
    exists|k: int| 0 <= k < pp.len() && (#[trigger] pp[k]).0@ == u
}

/// Whether some reference from position `lo` on, of package `p` and
/// direction `d`, has this name and resolved to this id.
pub open spec fn explained(
    refs: Seq<Reference>,
    lo: int,
    res: Seq<ResourceLock>,
    slots: Seq<Option<(String, ResourceFormat)>>,
    p: int,
    d: bool,
    name: Seq<char>,
    id: u32,
) -> bool {
    exists|i: int| lo <= i < refs.len() && (#[trigger] refs[i]).parent == p && refs[i].is_input == d
        && refs[i].name@ == name && slot_target(res, slots, refs[i].slot as int) == Some(id as int)
}

/// The lock index recorded for a key, if any.
pub open spec fn locked_index(res: Seq<ResourceLock>, key: (Seq<char>, ResourceFormat)) -> Option<int> {
    if exists|i: int| 0 <= i < res.len() && res_key(res[i]) == key {
        Some(choose|i: int| 0 <= i < res.len() && res_key(res[i]) == key)
    } else {
        None
    }
}

/// The lock index a slot was resolved to, if its key was recorded.
pub open spec fn slot_target(
    res: Seq<ResourceLock>,
    slots: Seq<Option<(String, ResourceFormat)>>,
    slot: int,
) -> Option<int> {
    if 0 <= slot < slots.len() {
        match slots[slot] {
            Some(k) => locked_index(res, req_key(k)),
            None => None,
        }
    } else {
        None
    }
}

/// The key of a locked resource.
pub open spec fn res_key(r: ResourceLock) -> (Seq<char>, ResourceFormat) {
    (r.url@, r.format)
}

/// The key of a requested pair.
pub open spec fn req_key(p: (String, ResourceFormat)) -> (Seq<char>, ResourceFormat) {
    (p.0@, p.1)
}

impl ResolveState {
    /// The state's internal invariant.
    pub open spec fn wf(&self) -> bool {
        let n = self.resources@.len();
        &&& n < u32::MAX
        &&& self.indexes@.len() == n
        &&& forall|i: int| 0 <= i < n ==> (#[trigger] self.indexes@[i]).0@ == self.resources@[i].url@
            && self.indexes@[i].1 == self.resources@[i].format && self.indexes@[i].2 == i
        &&& forall|i: int| 0 <= i < self.references@.len() ==> (#[trigger] self.references@[i]).parent < n
            && self.references@[i].slot < self.slots@.len()
            && self.resources@[self.references@[i].parent as int].format == ResourceFormat::Package
        &&& forall|a: int, b: int| 0 <= a < b < self.references@.len() ==> !same_ref_name(self.references@[a], self.references@[b])
        &&& forall|a: int, b: int| 0 <= a < b < self.root@.len() ==> self.root@[a] != self.root@[b]
        &&& forall|i: int| 0 <= i < self.pending_packages@.len() ==> (#[trigger] self.pending_packages@[i]).1 < self.slots@.len()
        &&& forall|i: int| 0 <= i < self.pending_resources@.len() ==> (#[trigger] self.pending_resources@[i]).slot < self.slots@.len()
        &&& forall|i: int| 0 <= i < self.root@.len() ==> (#[trigger] self.root@[i]) < n
        &&& forall|i: int| 0 <= i < n ==> {
            let r = #[trigger] self.resources@[i];
            &&& (r.format == ResourceFormat::Package) == r.inputs.is_some()
            &&& (r.format == ResourceFormat::Package) == r.outputs.is_some()
            &&& r.inputs matches Some(v) ==> v@.len() == 0
            &&& r.outputs matches Some(v) ==> v@.len() == 0
        }
    }

    /// Every locked or outstanding key is requested, normalized and held
    /// once.
    pub open spec fn keys_ok(&self) -> bool {
        keys_ok_parts(self.resources@, self.outstanding@, self.requested@)
    }

    /// Whether a key was handed out for download and not recorded yet.
    pub fn is_outstanding(&self, url: &String, format: ResourceFormat) -> (r: bool)
        ensures
            r == has_key(self.outstanding@, url@, format),
    {
        contains_key(&self.outstanding, url, format)
    }

    /// Remove an outstanding key.
    fn settle(&mut self, url: &String, format: ResourceFormat)
        requires
            has_key(old(self).outstanding@, url@, format),
        ensures
            exists|k: int| 0 <= k < old(self).outstanding@.len() && req_key(old(self).outstanding@[k]) == (url@, format)
                && final(self).outstanding@ == old(self).outstanding@.remove(k),
            final(self).resources@ == old(self).resources@,
            final(self).requested@ == old(self).requested@,
            final(self).indexes@ == old(self).indexes@,
            final(self).references@ == old(self).references@,
            final(self).slots@ == old(self).slots@,
            final(self).pending_packages@ == old(self).pending_packages@,
            final(self).pending_resources@ == old(self).pending_resources@,
            final(self).root@ == old(self).root@,
    {
        let mut k: usize = 0;
        while k < self.outstanding.len()
            invariant
                k <= self.outstanding@.len(),
                self.outstanding@ == old(self).outstanding@,
                self.resources@ == old(self).resources@,
                self.requested@ == old(self).requested@,
                self.indexes@ == old(self).indexes@,
                self.references@ == old(self).references@,
                self.slots@ == old(self).slots@,
                self.pending_packages@ == old(self).pending_packages@,
                self.pending_resources@ == old(self).pending_resources@,
                self.root@ == old(self).root@,
                has_key(self.outstanding@, url@, format),
                forall|j: int| 0 <= j < k ==> req_key(self.outstanding@[j]) != (url@, format),
            decreases self.outstanding.len() - k,
        {
            if self.outstanding[k].0.eq(url) && self.outstanding[k].1 == format {
                self.outstanding.remove(k);
                return;
            }
            k += 1;
        }
        proof {
            let j = choose|j: int| 0 <= j < self.outstanding@.len() && (#[trigger] self.outstanding@[j]).0@ == url@ && self.outstanding@[j].1 == format;
            assert(req_key(self.outstanding@[j]) == (url@, format));
        }
    }

    /// Number of resources locked so far.
    pub open spec fn locked(&self) -> int {
        self.resources@.len() as int
    }

    /// Begin a resolve of the resolver's root packages.
    pub fn new(resolver: &PackagesResolver) -> (r: ResolveState)
        ensures
            r.wf(),
            r.keys_ok(),
            r.locked() == 0,
            r.pending_packages@.len() == resolver.root_packages@.len(),
    {
        let mut st = ResolveState {
            pending_packages: Vec::new(),
            pending_resources: Vec::new(),
            requested: Vec::new(),
            outstanding: Vec::new(),
            indexes: Vec::new(),
            slots: Vec::new(),
            references: Vec::new(),
            resources: Vec::new(),
            root: Vec::new(),
        };
        let mut i: usize = 0;
        while i < resolver.root_packages.len()
            invariant
                st.wf(),
                st.keys_ok(),
                st.outstanding@.len() == 0,
                st.requested@.len() == 0,
                st.resources@.len() == 0,
                i <= resolver.root_packages@.len(),
                st.pending_packages@.len() == i,
            decreases resolver.root_packages.len() - i,
        {
            let slot = st.slots.len();
            st.slots.push(None);
            st.pending_packages.push((resolver.root_packages[i].clone(), slot, true));
            i += 1;
        }
        st
    }

    /// Whether nothing is left to download.
    pub fn is_done(&self) -> (r: bool)
        ensures
            r == (self.pending_packages@.len() == 0 && self.pending_resources@.len() == 0),
    {
        self.pending_packages.len() == 0 && self.pending_resources.len() == 0
    }

    /// The manifests to download in this round. Each queued package URL is
    /// completed with `/package.json` and normalized; one already requested
    /// with the package format is not fetched again.
    pub fn take_packages(&mut self) -> (r: Vec<PackageFetch>)
        requires
            old(self).wf(),
            old(self).keys_ok(),
        ensures
            final(self).wf(),
            final(self).keys_ok(),
            forall|i: int| 0 <= i < r@.len() ==> has_key(final(self).outstanding@, (#[trigger] r@[i]).url@, ResourceFormat::Package),
            final(self).locked() == old(self).locked(),
            final(self).pending_packages@.len() == 0,
            final(self).pending_resources@ == old(self).pending_resources@,
            forall|i: int| 0 <= i < r@.len() ==> !has_key(old(self).requested@, (#[trigger] r@[i]).url@, ResourceFormat::Package),
            forall|i: int| 0 <= i < r@.len() ==> (#[trigger] r@[i]).root_url@ == folder_url(r@[i].url@),
            forall|i: int| 0 <= i < r@.len() ==> from_queued(old(self).pending_packages@, old(self).pending_packages@.len() as int, #[trigger] r@[i]),
            forall|a: int, b: int| 0 <= a < b < r@.len() ==> r@[a].url@ != r@[b].url@,
            forall|j: int| 0 <= j < old(self).pending_packages@.len()
                && !has_key(old(self).requested@, queued_url(#[trigger] old(self).pending_packages@[j]), ResourceFormat::Package)
                ==> has_package_fetch(r@, queued_url(old(self).pending_packages@[j])),
    {
        let mut out: Vec<PackageFetch> = Vec::new();
        let mut queue = Vec::new();
        std::mem::swap(&mut queue, &mut self.pending_packages);
        let ghost old_requested = self.requested@;
        let mut k: usize = 0;
        while k < queue.len()
            invariant
                self.wf(),
                self.keys_ok(),
                queue@ == old(self).pending_packages@,
                forall|i: int| 0 <= i < out@.len() ==> from_queued(queue@, k as int, #[trigger] out@[i]),
                forall|a: int, b: int| 0 <= a < b < out@.len() ==> out@[a].url@ != out@[b].url@,
                forall|j: int| 0 <= j < k && !has_key(old_requested, queued_url(#[trigger] queue@[j]), ResourceFormat::Package)
                    ==> has_package_fetch(out@, queued_url(queue@[j])),
                forall|m: int| old_requested.len() <= m < self.requested@.len() ==> (#[trigger] self.requested@[m]).1 == ResourceFormat::Package
                    && has_package_fetch(out@, self.requested@[m].0@),
                forall|i: int| 0 <= i < out@.len() ==> has_key(self.outstanding@, (#[trigger] out@[i]).url@, ResourceFormat::Package),
                self.locked() == old(self).locked(),
                self.pending_packages@.len() == 0,
                self.pending_resources@ == old(self).pending_resources@,
                k <= queue@.len(),
                forall|i: int| 0 <= i < queue@.len() ==> (#[trigger] queue@[i]).1 < self.slots@.len(),
                forall|i: int| 0 <= i < out@.len() ==> !has_key(old_requested, (#[trigger] out@[i]).url@, ResourceFormat::Package),
                forall|i: int| 0 <= i < out@.len() ==> (#[trigger] out@[i]).root_url@ == folder_url(out@[i].url@),
                forall|i: int| 0 <= i < old_requested.len() ==> self.requested@.len() >= old_requested.len() && (#[trigger] self.requested@[i]) == old_requested[i],
                old_requested.len() <= self.requested@.len(),
            decreases queue.len() - k,
        {
            let slot = queue[k].1;
            let is_root = queue[k].2;
            let full = complete_manifest_url(&queue[k].0);
            let url = normalize_url(full.as_str());
            let ghost out_start = out@;
            let ghost req_start = self.requested@;
            proof {
                assert(queued_url(queue@[k as int]) == url@);
            }
            self.slots.set(slot, Some((url.clone(), ResourceFormat::Package)));
            if contains_key(&self.requested, &url, ResourceFormat::Package) {
                proof {
                    if !has_key(old_requested, url@, ResourceFormat::Package) {
                        let m = choose|m: int| 0 <= m < req_start.len() && (#[trigger] req_start[m]).0@ == url@ && req_start[m].1 == ResourceFormat::Package;
                        if m < old_requested.len() {
                            assert(req_start[m] == old_requested[m]);
                        }
                        assert(has_package_fetch(out@, req_start[m].0@));
                    }
                }
            } else {
                let root_url = folder_of(&url);
                let ghost before = self.requested@;
                let ghost out_before = self.outstanding@;
                self.requested.push((url.clone(), ResourceFormat::Package));
                self.outstanding.push((url.clone(), ResourceFormat::Package));
                proof {
                    lemma_normalize_url_idempotent(full@);
                    lemma_keys_after_request(self.resources@, out_before, before, url, ResourceFormat::Package);
                    assert(self.requested@ == before.push((url, ResourceFormat::Package)));
                    assert(!has_key(old_requested, url@, ResourceFormat::Package)) by {
                        if has_key(old_requested, url@, ResourceFormat::Package) {
                            let j = choose|j: int| 0 <= j < old_requested.len() && (#[trigger] old_requested[j]).0@ == url@ && old_requested[j].1 == ResourceFormat::Package;
                            assert(before[j] == old_requested[j]);
                        }
                    }
                }
                let ghost outs = out@;
                let ghost u = url@;
                out.push(PackageFetch { url, root_url, is_root });
                proof {
                    let last = self.outstanding@.len() - 1;
                    assert(self.outstanding@[last].0@ == out@[out@.len() - 1].url@);
                    assert(out@[outs.len() as int].url@ == u);
                    assert(has_package_fetch(out@, u));
                    assert forall|i: int| 0 <= i < outs.len() implies (#[trigger] outs[i]).url@ != u by {
                        assert(has_key(out_before, outs[i].url@, ResourceFormat::Package));
                        let q = choose|q: int| 0 <= q < out_before.len() && (#[trigger] out_before[q]).0@ == outs[i].url@ && out_before[q].1 == ResourceFormat::Package;
                        let r2 = choose|r2: int| 0 <= r2 < before.len() && (#[trigger] before[r2]).0@ == out_before[q].0@ && before[r2].1 == out_before[q].1;
                    }
                    assert forall|a: int, b: int| 0 <= a < b < out@.len() implies out@[a].url@ != out@[b].url@ by {
                        if b == outs.len() {
                            assert(out@[a] == outs[a]);
                        } else {
                            assert(out@[a] == outs[a] && out@[b] == outs[b]);
                        }
                    }
                    assert forall|i: int| 0 <= i < out@.len() implies from_queued(queue@, k + 1, #[trigger] out@[i]) by {
                        if i < outs.len() {
                            assert(out@[i] == outs[i]);
                            assert(from_queued(queue@, k as int, outs[i]));
                            let w = choose|w: int| 0 <= w < k && w < queue@.len() && queued_url(#[trigger] queue@[w]) == outs[i].url@ && outs[i].is_root == queue@[w].2;
                        } else {
                            assert(queued_url(queue@[k as int]) == out@[i].url@ && out@[i].is_root == queue@[k as int].2);
                        }
                    }
                    assert forall|u2: Seq<char>| has_package_fetch(outs, u2) implies has_package_fetch(out@, u2) by {
                        let i = choose|i: int| 0 <= i < outs.len() && (#[trigger] outs[i]).url@ == u2;
                        assert(out@[i] == outs[i]);
                    }
                    assert forall|m: int| old_requested.len() <= m < self.requested@.len() implies (#[trigger] self.requested@[m]).1 == ResourceFormat::Package
                        && has_package_fetch(out@, self.requested@[m].0@) by {
                        if m < before.len() {
                            assert(self.requested@[m] == before[m]);
                        }
                    }
                    assert forall|i: int| 0 <= i < out@.len() implies has_key(self.outstanding@, (#[trigger] out@[i]).url@, ResourceFormat::Package) by {
                        if i < outs.len() {
                            assert(out@[i] == outs[i]);
                            let q = choose|q: int| 0 <= q < out_before.len() && (#[trigger] out_before[q]).0@ == outs[i].url@ && out_before[q].1 == ResourceFormat::Package;
                            assert(self.outstanding@[q] == out_before[q]);
                        }
                    }
                }
            }
            proof {
                assert forall|j: int| 0 <= j < k + 1 && !has_key(old_requested, queued_url(#[trigger] queue@[j]), ResourceFormat::Package)
                    implies has_package_fetch(out@, queued_url(queue@[j])) by {
                    if j < k {
                        assert(has_package_fetch(out_start, queued_url(queue@[j])));
                        let i = choose|i: int| 0 <= i < out_start.len() && (#[trigger] out_start[i]).url@ == queued_url(queue@[j]);
                        assert(out@[i] == out_start[i]);
                    }
                }
            }
            k += 1;
        }
        out
    }

    /// Record a downloaded manifest: lock it as a package, and queue every
    /// input and output it declares.
    pub fn add_package(
        &mut self,
        fetch: &PackageFetch,
        hash: crate::hash::Hash,
        size: u64,
        manifest: PackageManifest,
    )
        requires
            old(self).wf(),
            old(self).keys_ok(),
            has_key(old(self).outstanding@, fetch.url@, ResourceFormat::Package),
            old(self).locked() + 1 < u32::MAX,
        ensures
            final(self).wf(),
            final(self).keys_ok(),
            final(self).locked() == old(self).locked() + 1,
            final(self).resources@.last().url@ == fetch.url@,
            final(self).resources@.last().format == ResourceFormat::Package,
            final(self).resources@.last().lock == (ResourceLockData { hash, size }),
            fetch.is_root ==> final(self).root@.contains(old(self).locked() as u32),
            final(self).pending_resources@.len() <= old(self).pending_resources@.len()
                + manifest.inputs@.len() + manifest.outputs@.len(),
            forall|j: int| 0 <= j < manifest.inputs@.len() ==> has_ref(final(self).references@, old(self).locked() as u32, true, (#[trigger] manifest.inputs@[j]).0@),
            forall|j: int| 0 <= j < manifest.outputs@.len() ==> has_ref(final(self).references@, old(self).locked() as u32, false, (#[trigger] manifest.outputs@[j]).0@),
            forall|i: int| old(self).references@.len() <= i < final(self).references@.len() ==> (#[trigger] final(self).references@[i]).parent == old(self).locked()
                && queued_ref(final(self).pending_resources@, if final(self).references@[i].is_input { manifest.inputs@ } else { manifest.outputs@ },
                    fetch.root_url@, final(self).references@[i]),
    {
        let ghost out0 = self.outstanding@;
        let ghost res0 = self.resources@;
        self.settle(&fetch.url, ResourceFormat::Package);
        let index = self.resources.len() as u32;
        self.indexes.push((fetch.url.clone(), ResourceFormat::Package, index));
        let entry = ResourceLock {
            url: fetch.url.clone(),
            format: ResourceFormat::Package,
            lock: ResourceLockData { hash, size },
            inputs: Some(Vec::new()),
            outputs: Some(Vec::new()),
        };
        self.resources.push(entry);
        proof {
            let k = choose|k: int| 0 <= k < out0.len() && req_key(out0[k]) == (fetch.url@, ResourceFormat::Package) && self.outstanding@ == out0.remove(k);
            lemma_keys_after_record(res0, out0, self.requested@, k, entry);
        }
        if fetch.is_root {
            self.root.push(index);
            proof {
                assert(self.root@[self.root@.len() - 1] == index);
            }
        }
        let ghost root_now = self.root@;
        let PackageManifest { package: _, runtime: _, inputs, outputs } = manifest;
        let ghost ins = inputs@;
        let ghost outs = outputs@;
        let ghost refs0 = self.references@;
        self.queue_declared(inputs, &fetch.root_url, index, true);
        let ghost refs1 = self.references@;
        let ghost pend1 = self.pending_resources@;
        self.queue_declared(outputs, &fetch.root_url, index, false);
        assert(self.root@ == root_now);
        proof {
            assert forall|j: int| 0 <= j < ins.len() implies has_ref(self.references@, index, true, (#[trigger] ins[j]).0@) by {
                assert(has_ref(refs1, index, true, ins[j].0@));
                let w = choose|w: int| 0 <= w < refs1.len() && (#[trigger] refs1[w]).parent == index && refs1[w].is_input == true && refs1[w].name@ == ins[j].0@;
                assert(self.references@[w] == refs1[w]);
            }
            assert forall|i: int| refs0.len() <= i < self.references@.len() implies (#[trigger] self.references@[i]).parent == index
                && queued_ref(self.pending_resources@, if self.references@[i].is_input { ins } else { outs }, fetch.root_url@, self.references@[i]) by {
                if i < refs1.len() {
                    let ri = refs1[i];
                    assert(self.references@[i] == ri);
                    assert(ri.is_input == true);
                    assert(queued_ref(pend1, ins, fetch.root_url@, ri));
                    let (k2, j2) = choose|k2: int, j2: int| 0 <= k2 < pend1.len() && 0 <= j2 < ins.len() && (#[trigger] pend1[k2]).slot == ri.slot
                        && (#[trigger] ins[j2]).0@ == ri.name@ && pend1[k2].root_url@ == fetch.root_url@
                        && pend1[k2].uri@ == ins[j2].1.uri@ && pend1[k2].format == ins[j2].1.format
                        && pend1[k2].hash == ins[j2].1.hash;
                    assert(self.pending_resources@[k2] == pend1[k2]);
                }
            }
        }
    }

    /// Queue declared resources of the package locked at `parent`.
    fn queue_declared(
        &mut self,
        declared: Vec<(String, ResourceInfo)>,
        root_url: &String,
        parent: u32,
        is_input: bool,
    )
        requires
            old(self).wf(),
            parent < old(self).locked(),
            old(self).resources@[parent as int].format == ResourceFormat::Package,
        ensures
            final(self).wf(),
            final(self).outstanding@ == old(self).outstanding@,
            final(self).requested@ == old(self).requested@,
            final(self).resources@ == old(self).resources@,
            final(self).root@ == old(self).root@,
            final(self).pending_resources@.len() <= old(self).pending_resources@.len()
                + declared@.len(),
            old(self).references@.len() <= final(self).references@.len(),
            forall|i: int| 0 <= i < old(self).references@.len() ==> final(self).references@[i] == old(self).references@[i],
            old(self).pending_resources@.len() <= final(self).pending_resources@.len(),
            forall|i: int| 0 <= i < old(self).pending_resources@.len() ==> final(self).pending_resources@[i] == old(self).pending_resources@[i],
            forall|j: int| 0 <= j < declared@.len() ==> has_ref(final(self).references@, parent, is_input, (#[trigger] declared@[j]).0@),
            forall|i: int| old(self).references@.len() <= i < final(self).references@.len() ==> (#[trigger] final(self).references@[i]).parent == parent
                && final(self).references@[i].is_input == is_input
                && queued_ref(final(self).pending_resources@, declared@, root_url@, final(self).references@[i]),
    {
        let ghost d0 = declared@;
        let ghost refs0 = self.references@;
        let ghost pend0 = self.pending_resources@;
        let mut declared = declared;
        let ghost total = declared@.len();
        let ghost start = self.pending_resources@.len();
        while declared.len() > 0
            invariant
                self.wf(),
                self.outstanding@ == old(self).outstanding@,
                self.requested@ == old(self).requested@,
                self.resources@ == old(self).resources@,
                self.root@ == old(self).root@,
                parent < self.locked(),
                self.resources@[parent as int].format == ResourceFormat::Package,
                self.pending_resources@.len() + declared@.len() <= start + total,
                declared@ == d0.subrange(0, declared@.len() as int),
                declared@.len() <= d0.len(),
                refs0.len() <= self.references@.len(),
                forall|i: int| 0 <= i < refs0.len() ==> self.references@[i] == refs0[i],
                pend0.len() <= self.pending_resources@.len(),
                forall|i: int| 0 <= i < pend0.len() ==> self.pending_resources@[i] == pend0[i],
                forall|j: int| declared@.len() <= j < d0.len() ==> has_ref(self.references@, parent, is_input, (#[trigger] d0[j]).0@),
                forall|i: int| refs0.len() <= i < self.references@.len() ==> (#[trigger] self.references@[i]).parent == parent
                    && self.references@[i].is_input == is_input
                    && queued_ref(self.pending_resources@, d0, root_url@, self.references@[i]),
                start == old(self).pending_resources@.len(),
            decreases declared.len(),
        {
            let ghost jd = declared@.len() - 1;
            let (name, info) = declared.pop().unwrap();
            proof {
                assert((name, info) == d0[jd]);
                assert(declared@ == d0.subrange(0, jd));
            }
            let ghost refs_start = self.references@;
            let ghost pend_start = self.pending_resources@;
            let mut seen = false;
            let mut j: usize = 0;
            while j < self.references.len()
                invariant
                    j <= self.references@.len(),
                    seen ==> has_ref(self.references@, parent, is_input, name@),
                    !seen ==> forall|k: int| 0 <= k < j ==> !(self.references@[k].parent == parent
                        && self.references@[k].is_input == is_input && self.references@[k].name@ == name@),
                decreases self.references.len() - j,
            {
                if self.references[j].parent == parent && self.references[j].is_input == is_input
                    && self.references[j].name.eq(&name) {
                    seen = true;
                }
                j += 1;
            }
            if !seen {
                let slot = self.slots.len();
                self.slots.push(None);
                let ghost before = self.references@;
                let rf = Reference { slot, name, parent, is_input };
                self.references.push(rf);
                proof {
                    assert forall|a: int, b: int| 0 <= a < b < self.references@.len() implies !same_ref_name(self.references@[a], self.references@[b]) by {
                        if b < before.len() {
                            assert(self.references@[a] == before[a] && self.references@[b] == before[b]);
                        } else {
                            assert(self.references@[a] == before[a]);
                        }
                    }
                }
                let ghost inf = info;
                let ResourceInfo { uri, format, hash } = info;
                self.pending_resources.push(
                    PendingResource { slot, root_url: root_url.clone(), uri, format, hash },
                );
                proof {
                    let kk = self.pending_resources@.len() - 1;
                    let rr = self.references@.len() - 1;
                    assert(self.references@[rr] == rf);
                    assert(self.pending_resources@[kk].slot == rf.slot && d0[jd].0@ == rf.name@);
                    assert(queued_ref(self.pending_resources@, d0, root_url@, rf));
                    assert(has_ref(self.references@, parent, is_input, name@)) by {
                        assert(self.references@[rr].name@ == name@);
                    }
                    assert forall|i: int| refs0.len() <= i < self.references@.len() implies (#[trigger] self.references@[i]).parent == parent
                        && self.references@[i].is_input == is_input
                        && queued_ref(self.pending_resources@, d0, root_url@, self.references@[i]) by {
                        if i < rr {
                            assert(self.references@[i] == refs_start[i]);
                            let ri = refs_start[i];
                            assert(queued_ref(pend_start, d0, root_url@, ri));
                            let (k2, j2) = choose|k2: int, j2: int| 0 <= k2 < pend_start.len() && 0 <= j2 < d0.len() && (#[trigger] pend_start[k2]).slot == ri.slot
                                && (#[trigger] d0[j2]).0@ == ri.name@ && pend_start[k2].root_url@ == root_url@
                                && pend_start[k2].uri@ == d0[j2].1.uri@ && pend_start[k2].format == d0[j2].1.format
                                && pend_start[k2].hash == d0[j2].1.hash;
                            assert(self.pending_resources@[k2] == pend_start[k2]);
                        }
                    }
                    assert forall|j2: int| jd < j2 < d0.len() implies has_ref(self.references@, parent, is_input, (#[trigger] d0[j2]).0@) by {
                        assert(has_ref(refs_start, parent, is_input, d0[j2].0@));
                        let w = choose|w: int| 0 <= w < refs_start.len() && (#[trigger] refs_start[w]).parent == parent && refs_start[w].is_input == is_input && refs_start[w].name@ == d0[j2].0@;
                        assert(self.references@[w] == refs_start[w]);
                    }
                }
            }
        }
    }

    /// The resources to download in this round. Each declared URI is made
    /// absolute and normalized; one already requested with its format is
    /// not fetched again, and packages are queued for the next round instead.
    pub fn take_resources(&mut self) -> (r: Vec<ResourceFetch>)
        requires
            old(self).wf(),
            old(self).keys_ok(),
        ensures
            final(self).wf(),
            final(self).keys_ok(),
            forall|i: int| 0 <= i < r@.len() ==> has_key(final(self).outstanding@, (#[trigger] r@[i]).url@, r@[i].format),
            final(self).locked() == old(self).locked(),
            final(self).pending_resources@.len() == 0,
            forall|i: int| 0 <= i < r@.len() ==> (#[trigger] r@[i]).format != ResourceFormat::Package,
            forall|i: int| 0 <= i < r@.len() ==> !has_key(old(self).requested@, (#[trigger] r@[i]).url@, r@[i].format),
            forall|i: int| 0 <= i < r@.len() ==> from_pending(old(self).pending_resources@, 0, #[trigger] r@[i]),
            forall|a: int, b: int| 0 <= a < b < r@.len() ==> fetch_key(r@[a]) != fetch_key(r@[b]),
            forall|j: int| 0 <= j < old(self).pending_resources@.len() && (#[trigger] old(self).pending_resources@[j]).format != ResourceFormat::Package
                && !has_key(old(self).requested@, pending_key(old(self).pending_resources@[j]).0, old(self).pending_resources@[j].format)
                ==> has_fetch(r@, pending_key(old(self).pending_resources@[j])),
            forall|j: int| 0 <= j < old(self).pending_resources@.len() && (#[trigger] old(self).pending_resources@[j]).format == ResourceFormat::Package
                && !has_key(old(self).requested@, pending_key(old(self).pending_resources@[j]).0, ResourceFormat::Package)
                ==> has_pending_package(final(self).pending_packages@, pending_key(old(self).pending_resources@[j]).0),
            old(self).pending_packages@.len() <= final(self).pending_packages@.len(),
            forall|k: int| 0 <= k < old(self).pending_packages@.len() ==> final(self).pending_packages@[k] == old(self).pending_packages@[k],
    {
        let mut out: Vec<ResourceFetch> = Vec::new();
        let mut queue = Vec::new();
        std::mem::swap(&mut queue, &mut self.pending_resources);
        let ghost old_requested = self.requested@;
        let ghost q0 = queue@;
        proof {
            assert(q0.subrange(0, q0.len() as int) =~= q0);
        }
        let ghost pp0 = self.pending_packages@;
        while queue.len() > 0
            invariant
                self.wf(),
                self.keys_ok(),
                q0 == old(self).pending_resources@,
                pp0 == old(self).pending_packages@,
                queue@ == q0.subrange(0, queue@.len() as int),
                queue@.len() <= q0.len(),
                pp0.len() <= self.pending_packages@.len(),
                forall|k: int| 0 <= k < pp0.len() ==> self.pending_packages@[k] == pp0[k],
                forall|i: int| 0 <= i < out@.len() ==> from_pending(q0, queue@.len() as int, #[trigger] out@[i]),
                forall|a: int, b: int| 0 <= a < b < out@.len() ==> fetch_key(out@[a]) != fetch_key(out@[b]),
                forall|j: int| queue@.len() <= j < q0.len() && (#[trigger] q0[j]).format != ResourceFormat::Package
                    && !has_key(old_requested, pending_key(q0[j]).0, q0[j].format) ==> has_fetch(out@, pending_key(q0[j])),
                forall|j: int| queue@.len() <= j < q0.len() && (#[trigger] q0[j]).format == ResourceFormat::Package
                    && !has_key(old_requested, pending_key(q0[j]).0, ResourceFormat::Package)
                    ==> has_pending_package(self.pending_packages@, pending_key(q0[j]).0),
                forall|k: int| old_requested.len() <= k < self.requested@.len() ==> has_fetch(out@, req_key(#[trigger] self.requested@[k])),
                forall|i: int| 0 <= i < out@.len() ==> has_key(self.outstanding@, (#[trigger] out@[i]).url@, out@[i].format),
                self.locked() == old(self).locked(),
                self.pending_resources@.len() == 0,
                forall|i: int| 0 <= i < queue@.len() ==> (#[trigger] queue@[i]).slot < self.slots@.len(),
                forall|i: int| 0 <= i < out@.len() ==> (#[trigger] out@[i]).format != ResourceFormat::Package,
                forall|i: int| 0 <= i < out@.len() ==> !has_key(old_requested, (#[trigger] out@[i]).url@, out@[i].format),
                forall|i: int| 0 <= i < old_requested.len() ==> (#[trigger] self.requested@[i]) == old_requested[i],
                old_requested.len() <= self.requested@.len(),
            decreases queue.len(),
        {
            let ghost jj = queue@.len() - 1;
            let item = queue.pop().unwrap();
            let full = join_url(&item.root_url, &item.uri);
            let url = normalize_url(full.as_str());
            let ghost key = (url@, item.format);
            proof {
                assert(item == q0[jj]);
                assert(queue@ == q0.subrange(0, jj));
                assert(pending_key(q0[jj]) == key);
            }
            let ghost out_start = out@;
            let ghost pp_start = self.pending_packages@;
            let ghost req_start = self.requested@;
            self.slots.set(item.slot, Some((url.clone(), item.format)));
            if !contains_key(&self.requested, &url, item.format) {
                proof {
                    assert(!has_key(old_requested, url@, item.format)) by {
                        if has_key(old_requested, url@, item.format) {
                            let j = choose|j: int| 0 <= j < old_requested.len() && (#[trigger] old_requested[j]).0@ == url@ && old_requested[j].1 == item.format;
                            assert(self.requested@[j] == old_requested[j]);
                        }
                    }
                }
                if item.format == ResourceFormat::Package {
                    self.pending_packages.push((url, item.slot, false));
                    proof {
                        assert(self.pending_packages@[pp_start.len() as int].0@ == key.0);
                        assert forall|j: int| jj <= j < q0.len() && (#[trigger] q0[j]).format == ResourceFormat::Package
                            && !has_key(old_requested, pending_key(q0[j]).0, ResourceFormat::Package)
                            implies has_pending_package(self.pending_packages@, pending_key(q0[j]).0) by {
                            if j > jj {
                                let k = choose|k: int| 0 <= k < pp_start.len() && (#[trigger] pp_start[k]).0@ == pending_key(q0[j]).0;
                                assert(self.pending_packages@[k] == pp_start[k]);
                            }
                        }
                    }
                } else {
                    let ghost before = self.requested@;
                    let ghost out_before = self.outstanding@;
                    self.requested.push((url.clone(), item.format));
                    self.outstanding.push((url.clone(), item.format));
                    proof {
                        lemma_normalize_url_idempotent(full@);
                        lemma_keys_after_request(self.resources@, out_before, before, url, item.format);
                    }
                    let ghost outs = out@;
                    out.push(ResourceFetch { url, format: item.format, expected: item.hash });
                    proof {
                        let last = self.outstanding@.len() - 1;
                        let nf = out@[out@.len() - 1];
                        assert(fetch_key(nf) == key);
                        assert(self.outstanding@[last].0@ == out@[out@.len() - 1].url@);
                        assert forall|i: int| 0 <= i < out@.len() implies has_key(self.outstanding@, (#[trigger] out@[i]).url@, out@[i].format) by {
                            if i < outs.len() {
                                assert(out@[i] == outs[i]);
                                let q = choose|q: int| 0 <= q < out_before.len() && (#[trigger] out_before[q]).0@ == outs[i].url@ && out_before[q].1 == outs[i].format;
                                assert(self.outstanding@[q] == out_before[q]);
                            }
                        }
                        assert(has_fetch(out@, key));
                        assert forall|i: int| 0 <= i < out@.len() implies from_pending(q0, jj, #[trigger] out@[i]) by {
                            if i < outs.len() {
                                assert(out@[i] == outs[i]);
                                assert(from_pending(q0, jj + 1, outs[i]));
                                let w = choose|w: int| jj + 1 <= w < q0.len() && pending_key(#[trigger] q0[w]) == fetch_key(outs[i]) && outs[i].expected == q0[w].hash;
                            } else {
                                assert(pending_key(q0[jj]) == fetch_key(out@[i]) && out@[i].expected == q0[jj].hash);
                            }
                        }
                        assert forall|i: int| 0 <= i < outs.len() implies fetch_key(#[trigger] outs[i]) != key by {
                            let q = choose|q: int| 0 <= q < out_before.len() && (#[trigger] out_before[q]).0@ == outs[i].url@ && out_before[q].1 == outs[i].format;
                            let r2 = choose|r2: int| 0 <= r2 < before.len() && (#[trigger] before[r2]).0@ == out_before[q].0@ && before[r2].1 == out_before[q].1;
                        }
                        assert forall|a: int, b: int| 0 <= a < b < out@.len() implies fetch_key(out@[a]) != fetch_key(out@[b]) by {
                            if b == outs.len() {
                                assert(out@[a] == outs[a]);
                            } else {
                                assert(out@[a] == outs[a] && out@[b] == outs[b]);
                            }
                        }
                        assert forall|f: (Seq<char>, ResourceFormat)| has_fetch(outs, f) implies has_fetch(out@, f) by {
                            let i = choose|i: int| 0 <= i < outs.len() && fetch_key(#[trigger] outs[i]) == f;
                            assert(out@[i] == outs[i]);
                        }
                        assert forall|k: int| old_requested.len() <= k < self.requested@.len() implies has_fetch(out@, req_key(#[trigger] self.requested@[k])) by {
                            if k < before.len() {
                                assert(self.requested@[k] == before[k]);
                            }
                        }
                    }
                }
            } else {
                proof {
                    let k = choose|k: int| 0 <= k < req_start.len() && (#[trigger] req_start[k]).0@ == url@ && req_start[k].1 == item.format;
                    if !has_key(old_requested, url@, item.format) {
                        if k < old_requested.len() {
                            assert(req_start[k] == old_requested[k]);
                        }
                        assert(has_fetch(out@, req_key(req_start[k])));
                        if item.format == ResourceFormat::Package {
                            let i = choose|i: int| 0 <= i < out@.len() && fetch_key(#[trigger] out@[i]) == req_key(req_start[k]);
                        }
                    }
                }
            }
            proof {
                assert forall|j: int| jj <= j < q0.len() && (#[trigger] q0[j]).format != ResourceFormat::Package
                    && !has_key(old_requested, pending_key(q0[j]).0, q0[j].format) implies has_fetch(out@, pending_key(q0[j])) by {
                    if j > jj {
                        assert(has_fetch(out_start, pending_key(q0[j])));
                        let i = choose|i: int| 0 <= i < out_start.len() && fetch_key(#[trigger] out_start[i]) == pending_key(q0[j]);
                        assert(out@[i] == out_start[i]);
                    }
                }
            }
        }
        out
    }

    /// Record a downloaded (or already stored) resource whose content hashes
    /// to `hash`. Fails when its manifest declared another hash.
    pub fn add_resource(&mut self, fetch: &ResourceFetch, hash: crate::hash::Hash, size: u64) -> (r: Result<
        (),
        PackagesResolverError,
    >)
        requires
            old(self).wf(),
            old(self).keys_ok(),
            has_key(old(self).outstanding@, fetch.url@, fetch.format),
            old(self).locked() + 1 < u32::MAX,
            fetch.format != ResourceFormat::Package,
        ensures
            final(self).wf(),
            final(self).keys_ok(),
            match r {
                Ok(()) => {
                    &&& fetch.expected matches Some(e) ==> e == hash
                    &&& final(self).locked() == old(self).locked() + 1
                    &&& final(self).resources@.last().url@ == fetch.url@
                    &&& final(self).resources@.last().format == fetch.format
                    &&& final(self).resources@.last().lock == (ResourceLockData { hash, size })
                },
                Err(PackagesResolverError::HashMismatch { current, expected }) => {
                    &&& fetch.expected matches Some(e) && e != hash
                    &&& current@ == base32_text(hash.0)
                    &&& expected@ == base32_text(fetch.expected->Some_0.0)
                    &&& final(self).locked() == old(self).locked()
                },
                Err(_) => false,
            },
    {
        match fetch.expected {
            Some(e) => {
                if e != hash {
                    return Err(
                        PackagesResolverError::HashMismatch {
                            current: hash.to_base32(),
                            expected: e.to_base32(),
                        },
                    );
                }
            },
            None => {},
        }
        let ghost out0 = self.outstanding@;
        let ghost res0 = self.resources@;
        self.settle(&fetch.url, fetch.format);
        let index = self.resources.len() as u32;
        self.indexes.push((fetch.url.clone(), fetch.format, index));
        let entry = ResourceLock {
            url: fetch.url.clone(),
            format: fetch.format,
            lock: ResourceLockData { hash, size },
            inputs: None,
            outputs: None,
        };
        self.resources.push(entry);
        proof {
            let k = choose|k: int| 0 <= k < out0.len() && req_key(out0[k]) == (fetch.url@, fetch.format) && self.outstanding@ == out0.remove(k);
            lemma_keys_after_record(res0, out0, self.requested@, k, entry);
        }
        Ok(())
    }

    /// End the resolve: fill every package's inputs and outputs with the
    /// lock ids of their targets.
    ///
    /// Every id of the lock file points into its resources, and only
    /// packages carry input and output tables. Each recorded reference whose
    /// target was locked is an entry of its package's table, mapping its
    /// name to the target's lock id; the tables hold nothing else, and no
    /// name twice. The root ids are distinct, and the lock's URLs are
    /// normalized and unique per `(url, format)`.
    pub fn finish(self) -> (r: LockFile)
        requires
            self.wf(),
            self.keys_ok(),
        ensures
            lock_well_formed(r),
            forall|i: int, j: int| 0 <= i < j < r.resources@.len() ==> res_key(r.resources@[i]) != res_key(r.resources@[j]),
            forall|i: int| 0 <= i < r.resources@.len() ==> normalize_url_spec((#[trigger] r.resources@[i]).url@) == r.resources@[i].url@,
            r.resources@.len() == self.locked(),
            forall|i: int| 0 <= i < self.locked() ==> res_key((#[trigger] r.resources@[i])) == res_key(self.resources@[i])
                && r.resources@[i].lock == self.resources@[i].lock,
            r.lock.root@ == self.root@,
            forall|a: int, b: int| 0 <= a < b < r.lock.root@.len() ==> r.lock.root@[a] != r.lock.root@[b],
            forall|i: int| 0 <= i < self.references@.len() ==> patched(table_of(r.resources@[self.references@[i].parent as int], self.references@[i].is_input),
                self.references@[i].name@, #[trigger] slot_target(self.resources@, self.slots@, self.references@[i].slot as int)),
            forall|p: int, d: bool, q: int| 0 <= p < r.resources@.len() && 0 <= q < table_of(r.resources@[p], d).len()
                ==> explained(self.references@, 0, self.resources@, self.slots@, p, d,
                    (#[trigger] table_of(r.resources@[p], d)[q]).0@, table_of(r.resources@[p], d)[q].1),
            forall|p: int, d: bool| 0 <= p < r.resources@.len() ==> names_unique(#[trigger] table_of(r.resources@[p], d)),
    {
        let ghost all = self.references@;
        let ghost res0 = self.resources@;
        let ghost slots0 = self.slots@;
        let ResolveState {
            pending_packages: _,
            pending_resources: _,
            requested: _,
            outstanding: _,
            indexes,
            slots,
            references,
            resources,
            root,
        } = self;
        let n = resources.len();
        let mut resources = resources;
        let mut references = references;
        proof {
            assert forall|p: int, d: bool| 0 <= p < n implies (#[trigger] table_of(resources@[p], d)).len() == 0 by {
                let r = resources@[p];
                assert(r.inputs matches Some(v) ==> v@.len() == 0);
            }
        }
        while references.len() > 0
            invariant
                res0.len() == n,
                n < u32::MAX,
                slots@ == slots0,
                references@ == all.subrange(0, references@.len() as int),
                references@.len() <= all.len(),
                forall|i: int| 0 <= i < all.len() ==> (#[trigger] all[i]).parent < n && all[i].slot < slots0.len()
                    && res0[all[i].parent as int].format == ResourceFormat::Package,
                forall|a: int, b: int| 0 <= a < b < all.len() ==> !same_ref_name(all[a], all[b]),
                indexes@.len() == n,
                forall|i: int| 0 <= i < n ==> (#[trigger] indexes@[i]).0@ == res0[i].url@ && indexes@[i].1 == res0[i].format && indexes@[i].2 == i,
                forall|i: int, j: int| 0 <= i < j < n ==> res_key(res0[i]) != res_key(res0[j]),
                resources@.len() == n,
                forall|i: int| 0 <= i < n ==> (#[trigger] resources@[i]).url == res0[i].url && resources@[i].format == res0[i].format
                    && resources@[i].lock == res0[i].lock,
                forall|i: int| 0 <= i < n ==> resource_fits(#[trigger] resources@[i], n as int),
                forall|p: int, d: bool| 0 <= p < n ==> names_unique(#[trigger] table_of(resources@[p], d)),
                forall|i: int| references@.len() <= i < all.len() ==> patched(table_of(resources@[all[i].parent as int], all[i].is_input),
                    all[i].name@, #[trigger] slot_target(res0, slots0, all[i].slot as int)),
                forall|p: int, d: bool, q: int| 0 <= p < n && 0 <= q < table_of(resources@[p], d).len()
                    ==> explained(all, references@.len() as int, res0, slots0, p, d,
                        (#[trigger] table_of(resources@[p], d)[q]).0@, table_of(resources@[p], d)[q].1),
            decreases references.len(),
        {
            let ghost m = references@.len() - 1;
            let rf = references.pop().unwrap();
            proof {
                assert(rf == all[m]);
                assert(references@ == all.subrange(0, m));
            }
            let target: Option<u32> = match &slots[rf.slot] {
                None => None,
                Some((url, format)) => {
                    let mut found: Option<u32> = None;
                    let mut i: usize = 0;
                    while i < indexes.len()
                        invariant
                            i <= indexes@.len(),
                            indexes@.len() == n,
                            forall|j: int| 0 <= j < n ==> (#[trigger] indexes@[j]).0@ == res0[j].url@ && indexes@[j].1 == res0[j].format && indexes@[j].2 == j,
                            found matches Some(x) ==> x < n && res_key(res0[x as int]) == (url@, *format),
                            found is None ==> forall|j: int| 0 <= j < i ==> res_key(#[trigger] res0[j]) != (url@, *format),
                        decreases indexes.len() - i,
                    {
                        if found.is_none() && indexes[i].0.eq(url) && indexes[i].1 == *format {
                            found = Some(indexes[i].2);
                        }
                        i += 1;
                    }
                    proof {
                        let key = (url@, *format);
                        match found {
                            Some(x) => {
                                let c = choose|c: int| 0 <= c < res0.len() && res_key(res0[c]) == key;
                                if c != x {
                                    if c < x {
                                        assert(res_key(res0[c]) != res_key(res0[x as int]));
                                    } else {
                                        assert(res_key(res0[x as int]) != res_key(res0[c]));
                                    }
                                }
                                assert(locked_index(res0, key) == Some(x as int));
                            },
                            None => {
                                assert(locked_index(res0, key) is None);
                            },
                        }
                    }
                    found
                },
            };
            proof {
                match target {
                    Some(x) => assert(slot_target(res0, slots0, rf.slot as int) == Some(x as int)),
                    None => assert(slot_target(res0, slots0, rf.slot as int) is None),
                }
            }
            match target {
                Some(id) => {
                    let p = rf.parent as usize;
                    let ghost before = resources@;
                    let mut entry = resources.remove(p);
                    let ghost e0 = entry;
                    let ghost nm = rf.name@;
                    proof {
                        assert(entry == before[p as int]);
                        assert(entry.format == ResourceFormat::Package);
                        assert(resource_fits(entry, n as int));
                        assert(names_unique(table_of(entry, true)) && names_unique(table_of(entry, false)));
                    }
                    if rf.is_input {
                        match &mut entry.inputs {
                            Some(v) => {
                                set_ref(v, rf.name, id, Ghost(n as int));
                            },
                            None => {},
                        }
                    } else {
                        match &mut entry.outputs {
                            Some(v) => {
                                set_ref(v, rf.name, id, Ghost(n as int));
                            },
                            None => {},
                        }
                    }
                    let ghost removed = resources@;
                    resources.insert(p, entry);
                    proof {
                        let d0 = rf.is_input;
                        assert(resources@ == before.update(p as int, entry)) by {
                            assert(resources@ =~= before.update(p as int, entry));
                        }
                        assert(entry.url == e0.url && entry.format == e0.format && entry.lock == e0.lock);
                        assert(table_of(entry, !d0) == table_of(e0, !d0));
                        assert(has_entry(table_of(entry, d0), nm, id));
                        assert(resource_fits(entry, n as int));
                        // Earlier processed references keep their entries.
                        assert forall|i: int| m <= i < all.len() implies patched(table_of(resources@[all[i].parent as int], all[i].is_input),
                            all[i].name@, #[trigger] slot_target(res0, slots0, all[i].slot as int)) by {
                            if i == m {
                            } else if let Some(k) = slot_target(res0, slots0, all[i].slot as int) {
                                let pi = all[i].parent as int;
                                let di = all[i].is_input;
                                assert(has_entry(table_of(before[pi], di), all[i].name@, k as u32));
                                if pi == p && di == d0 {
                                    assert(!same_ref_name(all[m], all[i]));
                                    assert(all[i].name@ != nm);
                                    let q = choose|q: int| 0 <= q < table_of(e0, d0).len() && (#[trigger] table_of(e0, d0)[q]).0@ == all[i].name@ && table_of(e0, d0)[q].1 == k as u32;
                                    assert(table_of(e0, d0)[q].0@ != nm);
                                }
                            }
                        }
                        assert forall|pp: int, d: bool, q: int| 0 <= pp < n && 0 <= q < table_of(resources@[pp], d).len()
                            implies explained(all, m, res0, slots0, pp, d,
                                (#[trigger] table_of(resources@[pp], d)[q]).0@, table_of(resources@[pp], d)[q].1) by {
                            let t = table_of(resources@[pp], d);
                            if pp == p && d == d0 {
                                if t[q].0@ == nm && t[q].1 == id {
                                    assert(all[m].parent == pp && all[m].is_input == d && all[m].name@ == nm);
                                } else {
                                    let tb = table_of(e0, d0);
                                    assert(has_entry(tb, t[q].0@, t[q].1));
                                    let q2 = choose|q2: int| 0 <= q2 < tb.len() && (#[trigger] tb[q2]).0@ == t[q].0@ && tb[q2].1 == t[q].1;
                                    assert(tb == table_of(before[pp], d));
                                    assert(explained(all, m + 1, res0, slots0, pp, d, tb[q2].0@, tb[q2].1));
                                    let w = choose|w: int| m + 1 <= w < all.len() && (#[trigger] all[w]).parent == pp && all[w].is_input == d
                                        && all[w].name@ == tb[q2].0@ && slot_target(res0, slots0, all[w].slot as int) == Some(tb[q2].1 as int);
                                    assert(m <= w);
                                }
                            } else {
                                assert(resources@[pp] == before[pp] || pp == p);
                                assert(t == table_of(before[pp], d));
                                assert(explained(all, m + 1, res0, slots0, pp, d, t[q].0@, t[q].1));
                                let w = choose|w: int| m + 1 <= w < all.len() && (#[trigger] all[w]).parent == pp && all[w].is_input == d
                                    && all[w].name@ == t[q].0@ && slot_target(res0, slots0, all[w].slot as int) == Some(t[q].1 as int);
                                assert(m <= w);
                            }
                        }
                        assert forall|pp: int, d: bool| 0 <= pp < n implies names_unique(#[trigger] table_of(resources@[pp], d)) by {
                            if pp != p {
                                assert(resources@[pp] == before[pp]);
                            }
                        }
                    }
                },
                None => {},
            }
        }
        proof {
            assert(all.subrange(0, 0) =~= Seq::<Reference>::empty());
            assert forall|i: int, j: int| 0 <= i < j < resources@.len() implies res_key(resources@[i]) != res_key(resources@[j]) by {
                assert(resources@[i].url == res0[i].url && resources@[j].url == res0[j].url);
            }
        }
        LockFile { lock: LockFileInfo { root }, resources }
    }
}

} // verus!
