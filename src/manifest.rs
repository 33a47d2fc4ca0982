use vstd::prelude::*;
use crate::document::{
    collect_all, get_int, get_table, lemma_collect_all_ok, lemma_collect_err_extends,
    lemma_collect_step, lemma_table_get_push, lookup, lookup_int, lookup_table, table_get, Value,
};
use crate::format::{
    format_of_uri, format_text, lemma_format_text_round_trip, parse_format, ManifestFault,
    PackageManifestError, ResourceFormat,
};
use crate::hash::{base32_text, hash_of_text, lemma_base32_round_trip, AsHash};

verus! {

/// A package manifest: metadata, runtime requirement, and the named
/// resources the package consumes and exposes.
#[derive(Debug)]
pub struct PackageManifest {
    pub package: PackageInfo,
    pub runtime: RuntimeInfo,
    pub inputs: Vec<(String, ResourceInfo)>,
    pub outputs: Vec<(String, ResourceInfo)>,
}

/// Metadata of a package.
#[derive(Debug)]
pub struct PackageInfo {
    pub description: Option<String>,
    pub authors: Vec<String>,
}

/// Requirements on the runtime.
#[derive(Debug, Clone, Copy, PartialEq, Eq, Structural)]
pub struct RuntimeInfo {
    pub minimal_version: u32,
}

/// A resource declared by a manifest.
#[derive(Debug)]
pub struct ResourceInfo {
    pub uri: String,
    pub format: ResourceFormat,
    pub hash: Option<crate::hash::Hash>,
}

pub struct ResourceInfoModel {
    pub uri: Seq<char>,
    pub format: ResourceFormat,
    pub hash: Option<crate::hash::Hash>,
}

pub struct PackageManifestModel {
    pub description: Option<Seq<char>>,
    pub authors: Seq<Seq<char>>,
    pub minimal_version: u32,
    pub inputs: Seq<(Seq<char>, ResourceInfoModel)>,
    pub outputs: Seq<(Seq<char>, ResourceInfoModel)>,
}

impl View for ResourceInfo {
    type V = ResourceInfoModel;

    open spec fn view(&self) -> ResourceInfoModel {
        ResourceInfoModel { uri: self.uri@, format: self.format, hash: self.hash }
    }
}

pub open spec fn named_view(s: Seq<(String, ResourceInfo)>) -> Seq<(Seq<char>, ResourceInfoModel)> {
    s.map_values(|p: (String, ResourceInfo)| (p.0@, p.1@))
}

pub open spec fn opt_text(o: Option<String>) -> Option<Seq<char>> {
    match o {
        Some(s) => Some(s@),
        None => None,
    }
}

impl View for PackageManifest {
    type V = PackageManifestModel;

    open spec fn view(&self) -> PackageManifestModel {
        PackageManifestModel {
            description: opt_text(self.package.description),
            authors: self.package.authors@.map_values(|s: String| s@),
            minimal_version: self.runtime.minimal_version,
            inputs: named_view(self.inputs@),
            outputs: named_view(self.outputs@),
        }
    }
}

impl PackageInfo {
    /// Whether the package carries no metadata.
    pub fn is_empty(&self) -> (r: bool)
        ensures
            r == (self.description.is_none() && self.authors@.len() == 0),
    {
        self.description.is_none() && self.authors.len() == 0
    }
}

impl RuntimeInfo {
    /// Whether the requirement says nothing: versions below 2 are met by
    /// every runtime.
    pub fn is_empty(&self) -> (r: bool)
        ensures
            r == (self.minimal_version < 2),
    {
        self.minimal_version < 2
    }
}

pub open spec fn invalid(field: Seq<char>, expected: Seq<char>) -> ManifestFault {
    ManifestFault::InvalidField(field, expected)
}

/// The hash a manifest writes for a resource: base32 text or an integer.
pub open spec fn decode_info_hash(t: Seq<(String, Value)>) -> Result<Option<crate::hash::Hash>, ManifestFault> {
    match table_get(t, "hash"@) {
        None => Ok(None),
        Some(Value::String(h)) => match hash_of_text(h@) {
            Some(x) => Ok(Some(x)),
            None => Err(invalid("<resource>.hash"@, "string"@)),
        },
        Some(Value::Integer(i)) => Ok(Some(crate::hash::Hash(i as u64))),
        Some(_) => Err(invalid("<resource>.hash"@, "string"@)),
    }
}

/// The resource a table of a manifest describes.
pub open spec fn decode_info_table(t: Seq<(String, Value)>) -> Result<ResourceInfoModel, ManifestFault> {
    match table_get(t, "uri"@) {
        None => Err(ManifestFault::MissingUri),
        Some(Value::String(uri)) => {
            let format = match table_get(t, "format"@) {
                None => Ok(format_of_uri(uri@)),
                Some(Value::String(f)) => parse_format(f@),
                Some(_) => Err(invalid("<resource>.format"@, "string"@)),
            };
            match format {
                Err(e) => Err(e),
                Ok(format) => match decode_info_hash(t) {
                    Err(e) => Err(e),
                    Ok(hash) => Ok(ResourceInfoModel { uri: uri@, format, hash }),
                },
            }
        },
        Some(_) => Err(invalid("<resource>.uri"@, "string"@)),
    }
}

/// One named resource of an `inputs` or `outputs` table: a plain URI or a
/// table.
pub open spec fn decode_named(p: (String, Value), item_field: Seq<char>) -> Result<
    (Seq<char>, ResourceInfoModel),
    ManifestFault,
> {
    match p.1 {
        Value::String(uri) => Ok(
            (p.0@, ResourceInfoModel { uri: uri@, format: format_of_uri(uri@), hash: None }),
        ),
        Value::Table(t) => match decode_info_table(t@) {
            Ok(r) => Ok((p.0@, r)),
            Err(e) => Err(e),
        },
        _ => Err(invalid(item_field, "table"@)),
    }
}

pub open spec fn named_decoder(item_field: Seq<char>) -> spec_fn((String, Value)) -> Result<
    (Seq<char>, ResourceInfoModel),
    ManifestFault,
> {
    |p: (String, Value)| decode_named(p, item_field)
}

/// The `inputs` or `outputs` table of a manifest; absent means empty.
pub open spec fn decode_resources(doc: Seq<(String, Value)>, key: Seq<char>, item_field: Seq<char>) -> Result<
    Seq<(Seq<char>, ResourceInfoModel)>,
    ManifestFault,
> {
    match table_get(doc, key) {
        None => Ok(Seq::empty()),
        Some(Value::Table(t)) => collect_all(t@, named_decoder(item_field)),
        Some(_) => Err(invalid(key, "array"@)),
    }
}

/// The strings of an array whose items are all strings.
pub open spec fn decode_authors(items: Seq<Value>) -> Option<Seq<Seq<char>>> {
    if forall|i: int| 0 <= i < items.len() ==> #[trigger] items[i] is String {
        Some(items.map_values(|v: Value| text_of(v)))
    } else {
        None
    }
}

pub open spec fn text_of(v: Value) -> Seq<char> {
    match v {
        Value::String(s) => s@,
        _ => Seq::empty(),
    }
}

pub open spec fn decode_description(p: Seq<(String, Value)>) -> Result<Option<Seq<char>>, ManifestFault> {
    match table_get(p, "description"@) {
        None => Ok(None),
        Some(Value::String(s)) => Ok(Some(s@)),
        Some(_) => Err(invalid("package.description"@, "string"@)),
    }
}

pub open spec fn decode_author_field(p: Seq<(String, Value)>) -> Result<Seq<Seq<char>>, ManifestFault> {
    match table_get(p, "authors"@) {
        None => Ok(Seq::empty()),
        Some(Value::Array(items)) => match decode_authors(items@) {
            Some(a) => Ok(a),
            None => Err(invalid("package.authors"@, "string[]"@)),
        },
        Some(_) => Err(invalid("package.authors"@, "string[]"@)),
    }
}

pub open spec fn decode_runtime(doc: Seq<(String, Value)>) -> Result<u32, ManifestFault> {
    match table_get(doc, "runtime"@) {
        None => Ok(0),
        Some(Value::Table(r)) => match table_get(r@, "minimal_version"@) {
            None => Ok(0),
            Some(Value::Integer(v)) => Ok(v as u32),
            Some(_) => Err(invalid("runtime.minimal_version"@, "integer"@)),
        },
        Some(_) => Err(invalid("runtime"@, "table"@)),
    }
}

/// The manifest a document describes. Only format version 1 is known.
pub open spec fn decode_manifest(doc: Seq<(String, Value)>) -> Result<PackageManifestModel, ManifestFault> {
    match get_table(doc, "package"@) {
        None => Err(invalid("package"@, "table"@)),
        Some(p) => match get_int(p, "format"@) {
            None => Err(invalid("package.format"@, "integer"@)),
            Some(f) => if f != 1 {
                Err(ManifestFault::UnknownFormatVersion(f as u16))
            } else {
                match decode_description(p) {
                    Err(e) => Err(e),
                    Ok(description) => match decode_author_field(p) {
                        Err(e) => Err(e),
                        Ok(authors) => match decode_runtime(doc) {
                            Err(e) => Err(e),
                            Ok(minimal_version) => match decode_resources(doc, "inputs"@, "inputs[]"@) {
                                Err(e) => Err(e),
                                Ok(inputs) => match decode_resources(doc, "outputs"@, "outputs[]"@) {
                                    Err(e) => Err(e),
                                    Ok(outputs) => Ok(
                                        PackageManifestModel {
                                            description,
                                            authors,
                                            minimal_version,
                                            inputs,
                                            outputs,
                                        },
                                    ),
                                },
                            },
                        },
                    },
                }
            },
        },
    }
}

fn invalid_field(field: &'static str, expected: &'static str) -> (r: PackageManifestError)
    ensures
        r@ == invalid(field@, expected@),
{
    PackageManifestError::PackageInvalidFieldFormat { field, expected }
}

/// Read a resource declared as a table.
fn read_info(t: &Vec<(String, Value)>) -> (r: Result<ResourceInfo, PackageManifestError>)
    ensures
        match r {
            Ok(i) => decode_info_table(t@) == Ok::<_, ManifestFault>(i@),
            Err(e) => decode_info_table(t@) == Err::<ResourceInfoModel, _>(e@),
        },
{
    let uri = match lookup(t, "uri") {
        None => {
            return Err(PackageManifestError::ResourceMissingUri);
        },
        Some(Value::String(u)) => u,
        Some(_) => {
            return Err(invalid_field("<resource>.uri", "string"));
        },
    };
    let format = match lookup(t, "format") {
        None => ResourceFormat::from_uri(uri.as_str()),
        Some(Value::String(f)) => match ResourceFormat::from_str(f.as_str()) {
            Ok(f) => f,
            Err(e) => {
                return Err(e);
            },
        },
        Some(_) => {
            return Err(invalid_field("<resource>.format", "string"));
        },
    };
    let hash = match lookup(t, "hash") {
        None => None,
        Some(Value::String(h)) => match crate::hash::Hash::from_base32(h.as_str()) {
            Some(x) => Some(x),
            None => {
                return Err(invalid_field("<resource>.hash", "string"));
            },
        },
        Some(Value::Integer(i)) => Some(crate::hash::Hash(*i as u64)),
        Some(_) => {
            return Err(invalid_field("<resource>.hash", "string"));
        },
    };
    Ok(ResourceInfo { uri: uri.clone(), format, hash })
}

/// Read one named resource.
fn read_named(p: &(String, Value), item_field: &'static str) -> (r: Result<
    (String, ResourceInfo),
    PackageManifestError,
>)
    ensures
        match r {
            Ok(n) => decode_named(*p, item_field@) == Ok::<_, ManifestFault>((n.0@, n.1@)),
            Err(e) => decode_named(*p, item_field@) == Err::<(Seq<char>, ResourceInfoModel), _>(
                e@,
            ),
        },
{
    match &p.1 {
        Value::String(uri) => Ok(
            (
                p.0.clone(),
                ResourceInfo {
                    uri: uri.clone(),
                    format: ResourceFormat::from_uri(uri.as_str()),
                    hash: None,
                },
            ),
        ),
        Value::Table(t) => match read_info(t) {
            Ok(r) => Ok((p.0.clone(), r)),
            Err(e) => Err(e),
        },
        _ => Err(invalid_field(item_field, "table")),
    }
}

/// Read the `inputs` or `outputs` table of a manifest.
fn read_resources(doc: &Vec<(String, Value)>, key: &'static str, item_field: &'static str) -> (r:
    Result<Vec<(String, ResourceInfo)>, PackageManifestError>)
    ensures
        match r {
            Ok(v) => decode_resources(doc@, key@, item_field@) == Ok::<_, ManifestFault>(
                named_view(v@),
            ),
            Err(e) => decode_resources(doc@, key@, item_field@) == Err::<
                Seq<(Seq<char>, ResourceInfoModel)>,
                _,
            >(e@),
        },
{
    let mut out: Vec<(String, ResourceInfo)> = Vec::new();
    let t = match lookup(doc, key) {
        None => {
            assert(named_view(out@) =~= Seq::empty());
            return Ok(out);
        },
        Some(Value::Table(t)) => t,
        Some(_) => {
            return Err(invalid_field(key, "array"));
        },
    };
    let ghost f = named_decoder(item_field@);
    let mut i: usize = 0;
    assert(t@.subrange(0, 0) =~= Seq::<(String, Value)>::empty());
    assert(named_view(out@) =~= Seq::empty());
    while i < t.len()
        invariant
            i <= t@.len(),
            f == named_decoder(item_field@),
            table_get(doc@, key@) == Some(Value::Table(*t)),
            collect_all(t@.subrange(0, i as int), f) == Ok::<_, ManifestFault>(named_view(out@)),
        decreases t.len() - i,
    {
        proof {
            lemma_collect_step(t@, f, i as int);
        }
        match read_named(&t[i], item_field) {
            Ok(n) => {
                let ghost before = out@;
                out.push(n);
                proof {
                    assert(named_view(out@) =~= named_view(before).push((n.0@, n.1@)));
                }
            },
            Err(e) => {
                proof {
                    lemma_collect_err_extends(t@, f, i + 1);
                }
                return Err(e);
            },
        }
        i += 1;
    }
    assert(t@.subrange(0, i as int) =~= t@);
    Ok(out)
}

impl PackageManifest {
    /// Read a manifest from its document.
    pub fn from_table(doc: &Vec<(String, Value)>) -> (r: Result<PackageManifest, PackageManifestError>)
        ensures
            match r {
                Ok(m) => decode_manifest(doc@) == Ok::<_, ManifestFault>(m@),
                Err(e) => decode_manifest(doc@) == Err::<PackageManifestModel, _>(e@),
            },
    {
        let package = match lookup_table(doc, "package") {
            Some(p) => p,
            None => {
                return Err(invalid_field("package", "table"));
            },
        };
        let format = match lookup_int(package, "format") {
            Some(f) => f,
            None => {
                return Err(invalid_field("package.format", "integer"));
            },
        };
        if format != 1 {
            return Err(PackageManifestError::PackageUnknownFormatVersion(format as u16));
        }
        let description = match lookup(package, "description") {
            None => None,
            Some(Value::String(s)) => Some(s.clone()),
            Some(_) => {
                return Err(invalid_field("package.description", "string"));
            },
        };
        let mut authors: Vec<String> = Vec::new();
        match lookup(package, "authors") {
            None => {
                assert(authors@.map_values(|s: String| s@) =~= Seq::<Seq<char>>::empty());
            },
            Some(Value::Array(items)) => {
                let mut i: usize = 0;
                while i < items.len()
                    invariant
                        i <= items@.len(),
                        get_table(doc@, "package"@) == Some(package@),
                        get_int(package@, "format"@) is Some,
                        get_int(package@, "format"@).unwrap() == 1,
                        decode_description(package@) == Ok::<_, ManifestFault>(opt_text(description)),
                        table_get(package@, "authors"@) == Some(Value::Array(*items)),
                        forall|j: int| 0 <= j < i ==> #[trigger] items@[j] is String,
                        authors@.map_values(|s: String| s@) =~= items@.subrange(
                            0,
                            i as int,
                        ).map_values(|v: Value| text_of(v)),
                    decreases items.len() - i,
                {
                    match &items[i] {
                        Value::String(s) => {
                            let ghost before = authors@;
                            authors.push(s.clone());
                            proof {
                                assert(authors@.map_values(|s: String| s@) =~= before.map_values(
                                    |s: String| s@,
                                ).push(text_of(items@[i as int])));
                            }
                        },
                        _ => {
                            return Err(invalid_field("package.authors", "string[]"));
                        },
                    }
                    i += 1;
                }
                assert(items@.subrange(0, i as int) =~= items@);
            },
            Some(_) => {
                return Err(invalid_field("package.authors", "string[]"));
            },
        }
        let minimal_version: u32 = match lookup(doc, "runtime") {
            None => 0,
            Some(Value::Table(r)) => match lookup(r, "minimal_version") {
                None => 0,
                Some(Value::Integer(v)) => *v as u32,
                Some(_) => {
                    return Err(invalid_field("runtime.minimal_version", "integer"));
                },
            },
            Some(_) => {
                return Err(invalid_field("runtime", "table"));
            },
        };
        let inputs = match read_resources(doc, "inputs", "inputs[]") {
            Ok(v) => v,
            Err(e) => {
                return Err(e);
            },
        };
        let outputs = match read_resources(doc, "outputs", "outputs[]") {
            Ok(v) => v,
            Err(e) => {
                return Err(e);
            },
        };
        Ok(
            PackageManifest {
                package: PackageInfo { description, authors },
                runtime: RuntimeInfo { minimal_version },
                inputs,
                outputs,
            },
        )
    }
}

/// Write a declared resource as a table.
fn write_info(info: &ResourceInfo) -> (r: Vec<(String, Value)>)
    ensures
        decode_info_table(r@) == Ok::<_, ManifestFault>(info@),
{
    proof {
        reveal_strlit("uri");
        reveal_strlit("format");
        reveal_strlit("hash");
    }
    let mut t: Vec<(String, Value)> = Vec::new();
    let e0 = (String::from_str("uri"), Value::String(info.uri.clone()));
    assert(e0.0@ == "uri"@);
    proof {
        reveal_strlit("uri"); reveal_strlit("format"); reveal_strlit("hash");
        lemma_table_get_push(t@, e0, "uri"@);
        lemma_table_get_push(t@, e0, "format"@);
        lemma_table_get_push(t@, e0, "hash"@);
    }
    t.push(e0);
    let e1 = (String::from_str("format"), Value::String(info.format.to_string()));
    assert(e1.0@ == "format"@);
    proof {
        assert(table_get(t@, "uri"@) == Some(e0.1));
        assert("uri"@.len() == 3);
        assert("format"@.len() == 6);
        assert(e0.0@ == "uri"@);
        assert(table_get(t@, "format"@) is None);
        reveal_strlit("uri"); reveal_strlit("format"); reveal_strlit("hash");
        lemma_table_get_push(t@, e1, "uri"@);
        lemma_table_get_push(t@, e1, "format"@);
        lemma_table_get_push(t@, e1, "hash"@);
        lemma_format_text_round_trip(info.format);
    }
    t.push(e1);
    match info.hash {
        Some(h) => {
            let e2 = (String::from_str("hash"), Value::String(h.to_base32()));
            assert(e2.0@ == "hash"@);
            proof {
                reveal_strlit("uri"); reveal_strlit("format"); reveal_strlit("hash");
                lemma_table_get_push(t@, e2, "uri"@);
                lemma_table_get_push(t@, e2, "format"@);
                lemma_table_get_push(t@, e2, "hash"@);
                lemma_base32_round_trip(h);
            }
            t.push(e2);
        },
        None => {},
    }
    proof {
        reveal_strlit("uri");
        reveal_strlit("format");
        reveal_strlit("hash");
        assert(table_get(t@, "uri"@) == Some(Value::String(info.uri)));
        assert(table_get(t@, "format"@) == Some(Value::String(e1.1->String_0)));
    }
    t
}

/// Write a named resource table.
fn write_named(items: &Vec<(String, ResourceInfo)>, ghost_field: &'static str) -> (r: Vec<(String, Value)>)
    ensures
        collect_all(r@, named_decoder(ghost_field@)) == Ok::<_, ManifestFault>(named_view(items@)),
{
    let mut out: Vec<(String, Value)> = Vec::new();
    let mut i: usize = 0;
    while i < items.len()
        invariant
            i <= items@.len(),
            out@.len() == i,
            forall|j: int|
                0 <= j < i ==> decode_named(#[trigger] out@[j], ghost_field@) == Ok::<_, ManifestFault>(
                    (items@[j].0@, items@[j].1@),
                ),
        decreases items.len() - i,
    {
        let name = items[i].0.clone();
        out.push((name, Value::Table(write_info(&items[i].1))));
        i += 1;
    }
    proof {
        let f = named_decoder(ghost_field@);
        assert forall|j: int| 0 <= j < out@.len() implies f(out@[j]) == Ok::<_, ManifestFault>(
            named_view(items@)[j],
        ) by {
            assert(decode_named(out@[j], ghost_field@) == Ok::<_, ManifestFault>(
                (items@[j].0@, items@[j].1@),
            ));
        }
        lemma_collect_all_ok(out@, f, named_view(items@));
    }
    out
}

impl PackageManifest {
    /// Write the manifest as a document; reading it back gives the same
    /// manifest. The runtime table is written unless the minimal version is
    /// 0, which is also what an absent table reads as.
    pub fn to_table(&self) -> (r: Vec<(String, Value)>)
        ensures
            decode_manifest(r@) == Ok::<_, ManifestFault>(self@),
    {
        proof {
            reveal_strlit("format");
            reveal_strlit("description");
            reveal_strlit("authors");
            reveal_strlit("package");
            reveal_strlit("runtime");
            reveal_strlit("minimal_version");
            reveal_strlit("inputs");
            reveal_strlit("outputs");
            assert("package"@[0] != "runtime"@[0]);
            assert("outputs"@[0] != "package"@[0]);
            assert("outputs"@[0] != "runtime"@[0]);
        }
        let mut package: Vec<(String, Value)> = Vec::new();
        let fmt_entry = (String::from_str("format"), Value::Integer(1));
        assert(fmt_entry.0@ == "format"@);
        proof {
            reveal_strlit("format"); reveal_strlit("description"); reveal_strlit("authors"); reveal_strlit("package"); reveal_strlit("runtime"); reveal_strlit("minimal_version"); reveal_strlit("inputs"); reveal_strlit("outputs");
            lemma_table_get_push(package@, fmt_entry, "format"@);
            lemma_table_get_push(package@, fmt_entry, "description"@);
            lemma_table_get_push(package@, fmt_entry, "authors"@);
        }
        package.push(fmt_entry);
        proof {
            reveal_strlit("format");
            reveal_strlit("description");
            reveal_strlit("authors");
            assert(table_get(package@, "description"@) is None);
            assert(table_get(package@, "authors"@) is None);
        }
        match &self.package.description {
            Some(d) => {
                let desc_entry = (String::from_str("description"), Value::String(d.clone()));
                assert(desc_entry.0@ == "description"@);
                proof {
                    reveal_strlit("format"); reveal_strlit("description"); reveal_strlit("authors"); reveal_strlit("package"); reveal_strlit("runtime"); reveal_strlit("minimal_version"); reveal_strlit("inputs"); reveal_strlit("outputs");
                    lemma_table_get_push(package@, desc_entry, "format"@);
                    lemma_table_get_push(package@, desc_entry, "description"@);
                    lemma_table_get_push(package@, desc_entry, "authors"@);
                }
                package.push(desc_entry);
                proof {
                    reveal_strlit("description");
                    reveal_strlit("authors");
                    assert(table_get(package@, "description"@) == Some(desc_entry.1));
                    assert(table_get(package@, "authors"@) is None);
                }
            },
            None => {},
        }
        assert(decode_description(package@) == Ok::<_, ManifestFault>(self@.description));
        if self.package.authors.len() > 0 {
            let mut items: Vec<Value> = Vec::new();
            let mut i: usize = 0;
            while i < self.package.authors.len()
                invariant
                    i <= self.package.authors@.len(),
                    items@.len() == i,
                    forall|j: int| 0 <= j < i ==> #[trigger] items@[j] is String,
                    forall|j: int|
                        0 <= j < i ==> text_of(#[trigger] items@[j]) == self.package.authors@[j]@,
                decreases self.package.authors.len() - i,
            {
                items.push(Value::String(self.package.authors[i].clone()));
                i += 1;
            }
            assert(items@.map_values(|v: Value| text_of(v)) =~= self.package.authors@.map_values(
                |s: String| s@,
            ));
            let authors_entry = (String::from_str("authors"), Value::Array(items));
            assert(authors_entry.0@ == "authors"@);
            proof {
                reveal_strlit("format"); reveal_strlit("description"); reveal_strlit("authors"); reveal_strlit("package"); reveal_strlit("runtime"); reveal_strlit("minimal_version"); reveal_strlit("inputs"); reveal_strlit("outputs");
                lemma_table_get_push(package@, authors_entry, "format"@);
                lemma_table_get_push(package@, authors_entry, "description"@);
                lemma_table_get_push(package@, authors_entry, "authors"@);
            }
            package.push(authors_entry);
            proof {
                reveal_strlit("description");
                reveal_strlit("authors");
                assert(table_get(package@, "authors"@) == Some(authors_entry.1));
            }
        } else {
            assert(self.package.authors@.map_values(|s: String| s@) =~= Seq::<Seq<char>>::empty());
        }
        let ghost pkg = package@;
        proof {
            reveal_strlit("format");
            reveal_strlit("description");
            reveal_strlit("authors");
            assert(decode_description(pkg) == Ok::<_, ManifestFault>(self@.description));
            assert(decode_author_field(pkg) == Ok::<_, ManifestFault>(self@.authors));
        }
        let mut doc: Vec<(String, Value)> = Vec::new();
        let d0 = (String::from_str("package"), Value::Table(package));
        assert(d0.0@ == "package"@);
        proof {
            reveal_strlit("format"); reveal_strlit("description"); reveal_strlit("authors"); reveal_strlit("package"); reveal_strlit("runtime"); reveal_strlit("minimal_version"); reveal_strlit("inputs"); reveal_strlit("outputs");
            lemma_table_get_push(doc@, d0, "package"@);
            lemma_table_get_push(doc@, d0, "runtime"@);
            lemma_table_get_push(doc@, d0, "inputs"@);
            lemma_table_get_push(doc@, d0, "outputs"@);
        }
        doc.push(d0);
        if self.runtime.minimal_version != 0 {
            let mut runtime: Vec<(String, Value)> = Vec::new();
            let r0 = (
                String::from_str("minimal_version"),
                Value::Integer(self.runtime.minimal_version as i64),
            );
            assert(r0.0@ == "minimal_version"@);
            proof {
                reveal_strlit("format"); reveal_strlit("description"); reveal_strlit("authors"); reveal_strlit("package"); reveal_strlit("runtime"); reveal_strlit("minimal_version"); reveal_strlit("inputs"); reveal_strlit("outputs");
                lemma_table_get_push(runtime@, r0, "minimal_version"@);
                let v = self.runtime.minimal_version;
                assert(((v as i64) as u32) == v) by (bit_vector);
            }
            runtime.push(r0);
            let d1 = (String::from_str("runtime"), Value::Table(runtime));
            assert(d1.0@ == "runtime"@);
            proof {
                reveal_strlit("format"); reveal_strlit("description"); reveal_strlit("authors"); reveal_strlit("package"); reveal_strlit("runtime"); reveal_strlit("minimal_version"); reveal_strlit("inputs"); reveal_strlit("outputs");
                lemma_table_get_push(doc@, d1, "package"@);
                lemma_table_get_push(doc@, d1, "runtime"@);
                lemma_table_get_push(doc@, d1, "inputs"@);
                lemma_table_get_push(doc@, d1, "outputs"@);
            }
            doc.push(d1);
        }
        if self.inputs.len() > 0 {
            let d2 = (String::from_str("inputs"), Value::Table(write_named(&self.inputs, "inputs[]")));
            assert(d2.0@ == "inputs"@);
            proof {
                reveal_strlit("format"); reveal_strlit("description"); reveal_strlit("authors"); reveal_strlit("package"); reveal_strlit("runtime"); reveal_strlit("minimal_version"); reveal_strlit("inputs"); reveal_strlit("outputs");
                lemma_table_get_push(doc@, d2, "package"@);
                lemma_table_get_push(doc@, d2, "runtime"@);
                lemma_table_get_push(doc@, d2, "inputs"@);
                lemma_table_get_push(doc@, d2, "outputs"@);
            }
            doc.push(d2);
        } else {
            assert(named_view(self.inputs@) =~= Seq::empty());
        }
        if self.outputs.len() > 0 {
            let d3 = (
                String::from_str("outputs"),
                Value::Table(write_named(&self.outputs, "outputs[]")),
            );
            assert(d3.0@ == "outputs"@);
            proof {
                reveal_strlit("format"); reveal_strlit("description"); reveal_strlit("authors"); reveal_strlit("package"); reveal_strlit("runtime"); reveal_strlit("minimal_version"); reveal_strlit("inputs"); reveal_strlit("outputs");
                lemma_table_get_push(doc@, d3, "package"@);
                lemma_table_get_push(doc@, d3, "runtime"@);
                lemma_table_get_push(doc@, d3, "inputs"@);
                lemma_table_get_push(doc@, d3, "outputs"@);
            }
            doc.push(d3);
        } else {
            assert(named_view(self.outputs@) =~= Seq::empty());
        }
        proof {
            let m = self@;
            assert(decode_runtime(doc@) == Ok::<_, ManifestFault>(m.minimal_version));
            assert(decode_resources(doc@, "inputs"@, "inputs[]"@) == Ok::<_, ManifestFault>(m.inputs));
            assert(decode_resources(doc@, "outputs"@, "outputs[]"@) == Ok::<_, ManifestFault>(
                m.outputs,
            ));
        }
        doc
    }
}

impl crate::hash::AsHash for PackageInfo {
    open spec fn hash_spec(&self) -> crate::hash::Hash {
        crate::hash::Hash(self.description.hash_spec().0 ^ self.authors.hash_spec().0)
    }

    fn hash(&self) -> (r: crate::hash::Hash) {
        self.description.hash().chain(self.authors.hash())
    }
}

impl crate::hash::AsHash for RuntimeInfo {
    open spec fn hash_spec(&self) -> crate::hash::Hash {
        self.minimal_version.hash_spec()
    }

    fn hash(&self) -> (r: crate::hash::Hash) {
        self.minimal_version.hash()
    }
}

impl crate::hash::AsHash for ResourceInfo {
    open spec fn hash_spec(&self) -> crate::hash::Hash {
        crate::hash::Hash(crate::hash::seahash_of(vstd::utf8::encode_utf8(self.uri@)) ^ self.format.hash_spec().0
            ^ self.hash.hash_spec().0)
    }

    fn hash(&self) -> (r: crate::hash::Hash) {
        crate::hash::Hash::for_slice(self.uri.as_str().as_bytes()).chain(self.format.hash()).chain(
            self.hash.hash(),
        )
    }
}

impl crate::hash::AsHash for (String, ResourceInfo) {
    open spec fn hash_spec(&self) -> crate::hash::Hash {
        crate::hash::Hash(self.0.hash_spec().0 ^ self.1.hash_spec().0)
    }

    fn hash(&self) -> (r: crate::hash::Hash) {
        self.0.hash().chain(self.1.hash())
    }
}

/// The hash of a manifest covers its metadata and its resources; the
/// runtime requirement is left out.
impl crate::hash::AsHash for PackageManifest {
    open spec fn hash_spec(&self) -> crate::hash::Hash {
        crate::hash::Hash(self.package.hash_spec().0 ^ self.inputs.hash_spec().0 ^ self.outputs.hash_spec().0)
    }

    fn hash(&self) -> (r: crate::hash::Hash) {
        self.package.hash().chain(self.inputs.hash()).chain(self.outputs.hash())
    }
}

} // verus!
