use vstd::prelude::*;
use crate::document::{
    collect_all, lemma_collect_all_ok, get_array, get_int, get_str, get_table, lemma_collect_err_extends,
    lemma_collect_step, lookup_array, lookup_int, lookup_str, lookup_table, Value,
};
use crate::format::{lemma_format_text_round_trip, parse_format, ManifestFault, PackageManifestError, ResourceFormat};
use crate::hash::{hash_of_text, lemma_base32_round_trip, AsHash};

verus! {

/// Errors met while reading a lock file.
#[derive(Debug)]
pub enum LockFileError {
    PackageManifestError(PackageManifestError),
    InvalidFormatVersion(u16),
    InvalidFieldValue { field: &'static str, expected: &'static str },
}

/// The meaning of a [`LockFileError`].
pub enum LockFault {
    Manifest(ManifestFault),
    FormatVersion(u16),
    InvalidField(Seq<char>, Seq<char>),
}

impl View for LockFileError {
    type V = LockFault;

    open spec fn view(&self) -> LockFault {
        match self {
            LockFileError::PackageManifestError(e) => LockFault::Manifest(e@),
            LockFileError::InvalidFormatVersion(v) => LockFault::FormatVersion(*v),
            LockFileError::InvalidFieldValue { field, expected } => LockFault::InvalidField(
                field@,
                expected@,
            ),
        }
    }
}

/// The canonical closure of a resolve: the root set and every resource,
/// indexed by lock id.
#[derive(Debug)]
pub struct LockFile {
    pub lock: LockFileInfo,
    pub resources: Vec<ResourceLock>,
}

/// The root set of a lock file.
#[derive(Debug)]
pub struct LockFileInfo {
    pub root: Vec<u32>,
}

/// One locked resource; packages carry their inputs and outputs as
/// name to lock id tables.
#[derive(Debug)]
pub struct ResourceLock {
    pub url: String,
    pub format: ResourceFormat,
    pub lock: ResourceLockData,
    pub inputs: Option<Vec<(String, u32)>>,
    pub outputs: Option<Vec<(String, u32)>>,
}

/// Content hash and size of a locked resource.
#[derive(Debug, Clone, Copy, PartialEq, Eq, Structural)]
pub struct ResourceLockData {
    pub hash: crate::hash::Hash,
    pub size: u64,
}

/// A locked resource as a mathematical value.
pub struct ResourceLockModel {
    pub url: Seq<char>,
    pub format: ResourceFormat,
    pub hash: crate::hash::Hash,
    pub size: u64,
    pub inputs: Option<Seq<(Seq<char>, u32)>>,
    pub outputs: Option<Seq<(Seq<char>, u32)>>,
}

/// A lock file as a mathematical value.
pub struct LockFileModel {
    pub root: Seq<u32>,
    pub resources: Seq<ResourceLockModel>,
}

/// A name to id table as a sequence of pairs.
pub open spec fn refs_view(s: Seq<(String, u32)>) -> Seq<(Seq<char>, u32)> {
    s.map_values(|p: (String, u32)| (p.0@, p.1))
}

pub open spec fn opt_refs_view(o: Option<Vec<(String, u32)>>) -> Option<Seq<(Seq<char>, u32)>> {
    match o {
        Some(v) => Some(refs_view(v@)),
        None => None,
    }
}

impl View for ResourceLock {
    type V = ResourceLockModel;

    open spec fn view(&self) -> ResourceLockModel {
        ResourceLockModel {
            url: self.url@,
            format: self.format,
            hash: self.lock.hash,
            size: self.lock.size,
            inputs: opt_refs_view(self.inputs),
            outputs: opt_refs_view(self.outputs),
        }
    }
}

impl View for LockFile {
    type V = LockFileModel;

    open spec fn view(&self) -> LockFileModel {
        LockFileModel {
            root: self.lock.root@,
            resources: self.resources@.map_values(|r: ResourceLock| r@),
        }
    }
}

/// The id an integer value stands for.
pub open spec fn id_of(v: Value) -> u32 {
    match v {
        Value::Integer(i) => i as u32,
        _ => 0,
    }
}

/// The ids of an array whose items are all integers.
pub open spec fn decode_ids(items: Seq<Value>) -> Option<Seq<u32>> {
    if forall|i: int| 0 <= i < items.len() ==> #[trigger] items[i] is Integer {
        Some(items.map_values(|v: Value| id_of(v)))
    } else {
        None
    }
}

/// The name to id pairs of a table whose values are all integers.
pub open spec fn decode_refs(t: Seq<(String, Value)>) -> Option<Seq<(Seq<char>, u32)>> {
    if forall|i: int| 0 <= i < t.len() ==> #[trigger] t[i].1 is Integer {
        Some(t.map_values(|p: (String, Value)| (p.0@, id_of(p.1))))
    } else {
        None
    }
}

/// An optional reference table: absent (or not a table) gives none.
pub open spec fn decode_ref_field(t: Seq<(String, Value)>, key: Seq<char>, field: Seq<char>) -> Result<
    Option<Seq<(Seq<char>, u32)>>,
    LockFault,
> {
    match get_table(t, key) {
        None => Ok(None),
        Some(e) => match decode_refs(e) {
            Some(r) => Ok(Some(r)),
            None => Err(LockFault::InvalidField(field, "table"@)),
        },
    }
}

/// The hash written under `hash` in a table.
pub open spec fn decode_hash(t: Seq<(String, Value)>) -> Option<crate::hash::Hash> {
    match get_str(t, "hash"@) {
        Some(h) => hash_of_text(h),
        None => None,
    }
}

/// The locked resource a table describes.
pub open spec fn decode_resource_table(t: Seq<(String, Value)>) -> Result<ResourceLockModel, LockFault> {
    match get_str(t, "url"@) {
        None => Err(LockFault::InvalidField("<resource>.url"@, "string"@)),
        Some(url) => match get_str(t, "format"@) {
            None => Err(LockFault::InvalidField("<resource>.format"@, "string"@)),
            Some(fs) => match parse_format(fs) {
                Err(e) => Err(LockFault::Manifest(e)),
                Ok(format) => match get_table(t, "lock"@) {
                    None => Err(LockFault::InvalidField("<resource>.lock"@, "table"@)),
                    Some(l) => match decode_hash(l) {
                        None => Err(LockFault::InvalidField("<resource>.lock.hash"@, "string"@)),
                        Some(hash) => match get_int(l, "size"@) {
                            None => Err(LockFault::InvalidField("<resource>.lock.size"@, "integer"@)),
                            Some(size) => match decode_ref_field(t, "inputs"@, "<resource>.inputs"@) {
                                Err(e) => Err(e),
                                Ok(inputs) => match decode_ref_field(
                                    t,
                                    "outputs"@,
                                    "<resource>.outputs"@,
                                ) {
                                    Err(e) => Err(e),
                                    Ok(outputs) => Ok(
                                        ResourceLockModel {
                                            url,
                                            format,
                                            hash,
                                            size: size as u64,
                                            inputs,
                                            outputs,
                                        },
                                    ),
                                },
                            },
                        },
                    },
                },
            },
        },
    }
}

/// The locked resource an item of the `resources` array describes.
pub open spec fn decode_resource(v: Value) -> Result<ResourceLockModel, LockFault> {
    match v {
        Value::Table(t) => decode_resource_table(t@),
        _ => Err(LockFault::InvalidField("resources[]"@, "table"@)),
    }
}

/// [`decode_resource`] as a function value.
pub open spec fn resource_decoder() -> spec_fn(Value) -> Result<ResourceLockModel, LockFault> {
    |v: Value| decode_resource(v)
}

/// The root ids written under `root`.
pub open spec fn decode_root(lock: Seq<(String, Value)>) -> Option<Seq<u32>> {
    match get_array(lock, "root"@) {
        Some(items) => decode_ids(items),
        None => None,
    }
}

/// The lock file a document describes.
pub open spec fn decode_lock(doc: Seq<(String, Value)>) -> Result<LockFileModel, LockFault> {
    match get_table(doc, "lock"@) {
        None => Err(LockFault::InvalidField("lock"@, "table"@)),
        Some(lock) => match get_int(lock, "format"@) {
            None => Err(LockFault::InvalidField("lock.format"@, "integer"@)),
            Some(f) => if f != 1 {
                Err(LockFault::FormatVersion(f as u16))
            } else {
                match decode_root(lock) {
                    None => Err(LockFault::InvalidField("lock.root"@, "integer[]"@)),
                    Some(root) => match get_array(doc, "resources"@) {
                        None => Err(LockFault::InvalidField("resources"@, "array"@)),
                        Some(items) => match collect_all(items, resource_decoder()) {
                            Err(e) => Err(e),
                            Ok(resources) => Ok(LockFileModel { root, resources }),
                        },
                    },
                }
            },
        },
    }
}

/// Read the ids of an array of integers.
fn read_ids(items: &Vec<Value>) -> (r: Option<Vec<u32>>)
    ensures
        match r {
            Some(v) => decode_ids(items@) == Some(v@),
            None => decode_ids(items@).is_none(),
        },
{
    let mut out: Vec<u32> = Vec::new();
    let mut i: usize = 0;
    while i < items.len()
        invariant
            i <= items@.len(),
            forall|j: int| 0 <= j < i ==> #[trigger] items@[j] is Integer,
            out@ =~= items@.subrange(0, i as int).map_values(|v: Value| id_of(v)),
        decreases items.len() - i,
    {
        match &items[i] {
            Value::Integer(n) => {
                out.push(*n as u32);
            },
            _ => {
                return None;
            },
        }
        i += 1;
    }
    assert(items@.subrange(0, i as int) =~= items@);
    Some(out)
}

/// Read a name to id table.
fn read_refs(t: &Vec<(String, Value)>) -> (r: Option<Vec<(String, u32)>>)
    ensures
        match r {
            Some(v) => decode_refs(t@) == Some(refs_view(v@)),
            None => decode_refs(t@).is_none(),
        },
{
    let mut out: Vec<(String, u32)> = Vec::new();
    let mut i: usize = 0;
    while i < t.len()
        invariant
            i <= t@.len(),
            forall|j: int| 0 <= j < i ==> #[trigger] t@[j].1 is Integer,
            refs_view(out@) =~= t@.subrange(0, i as int).map_values(
                |p: (String, Value)| (p.0@, id_of(p.1)),
            ),
        decreases t.len() - i,
    {
        match &t[i].1 {
            Value::Integer(n) => {
                let name = t[i].0.clone();
                let ghost before = out@;
                out.push((name, *n as u32));
                proof {
                    assert(t@.subrange(0, i + 1) =~= t@.subrange(0, i as int).push(t@[i as int]));
                    assert(out@ =~= before.push((name, *n as u32)));
                    assert(refs_view(out@) =~= refs_view(before).push((t@[i as int].0@, id_of(t@[i as int].1))));
                }
            },
            _ => {
                return None;
            },
        }
        i += 1;
    }
    assert(t@.subrange(0, i as int) =~= t@);
    Some(out)
}

/// Read an optional reference table.
fn read_ref_field(t: &Vec<(String, Value)>, key: &str, field: &'static str) -> (r: Result<
    Option<Vec<(String, u32)>>,
    LockFileError,
>)
    ensures
        match r {
            Ok(o) => decode_ref_field(t@, key@, field@) == Ok::<_, LockFault>(opt_refs_view(o)),
            Err(e) => decode_ref_field(t@, key@, field@) == Err::<Option<Seq<(Seq<char>, u32)>>, _>(
                e@,
            ),
        },
{
    match lookup_table(t, key) {
        None => Ok(None),
        Some(e) => match read_refs(e) {
            Some(r) => Ok(Some(r)),
            None => Err(LockFileError::InvalidFieldValue { field, expected: "table" }),
        },
    }
}

/// Read one locked resource from its table.
fn read_resource(t: &Vec<(String, Value)>) -> (r: Result<ResourceLock, LockFileError>)
    ensures
        match r {
            Ok(l) => decode_resource_table(t@) == Ok::<_, LockFault>(l@),
            Err(e) => decode_resource_table(t@) == Err::<ResourceLockModel, _>(e@),
        },
{
    let url = match lookup_str(t, "url") {
        Some(u) => u.clone(),
        None => {
            return Err(LockFileError::InvalidFieldValue { field: "<resource>.url", expected: "string" });
        },
    };
    let format = match lookup_str(t, "format") {
        Some(f) => match ResourceFormat::from_str(f.as_str()) {
            Ok(f) => f,
            Err(e) => {
                return Err(LockFileError::PackageManifestError(e));
            },
        },
        None => {
            return Err(
                LockFileError::InvalidFieldValue { field: "<resource>.format", expected: "string" },
            );
        },
    };
    let lock = match lookup_table(t, "lock") {
        Some(l) => l,
        None => {
            return Err(LockFileError::InvalidFieldValue { field: "<resource>.lock", expected: "table" });
        },
    };
    let hash = match lookup_str(lock, "hash") {
        Some(h) => crate::hash::Hash::from_base32(h.as_str()),
        None => None,
    };
    let hash = match hash {
        Some(h) => h,
        None => {
            return Err(
                LockFileError::InvalidFieldValue { field: "<resource>.lock.hash", expected: "string" },
            );
        },
    };
    let size = match lookup_int(lock, "size") {
        Some(s) => s as u64,
        None => {
            return Err(
                LockFileError::InvalidFieldValue { field: "<resource>.lock.size", expected: "integer" },
            );
        },
    };
    let inputs = match read_ref_field(t, "inputs", "<resource>.inputs") {
        Ok(i) => i,
        Err(e) => {
            return Err(e);
        },
    };
    let outputs = match read_ref_field(t, "outputs", "<resource>.outputs") {
        Ok(o) => o,
        Err(e) => {
            return Err(e);
        },
    };
    Ok(ResourceLock { url, format, lock: ResourceLockData { hash, size }, inputs, outputs })
}

impl LockFile {
    /// Read a lock file from its document. Only format version 1 is known.
    pub fn from_table(doc: &Vec<(String, Value)>) -> (r: Result<LockFile, LockFileError>)
        ensures
            match r {
                Ok(l) => decode_lock(doc@) == Ok::<_, LockFault>(l@),
                Err(e) => decode_lock(doc@) == Err::<LockFileModel, _>(e@),
            },
    {
        let lock = match lookup_table(doc, "lock") {
            Some(l) => l,
            None => {
                return Err(LockFileError::InvalidFieldValue { field: "lock", expected: "table" });
            },
        };
        let format = match lookup_int(lock, "format") {
            Some(f) => f,
            None => {
                return Err(
                    LockFileError::InvalidFieldValue { field: "lock.format", expected: "integer" },
                );
            },
        };
        if format != 1 {
            return Err(LockFileError::InvalidFormatVersion(format as u16));
        }
        let root = match lookup_array(lock, "root") {
            Some(items) => read_ids(items),
            None => None,
        };
        let root = match root {
            Some(r) => r,
            None => {
                return Err(
                    LockFileError::InvalidFieldValue { field: "lock.root", expected: "integer[]" },
                );
            },
        };
        let items = match lookup_array(doc, "resources") {
            Some(items) => items,
            None => {
                return Err(LockFileError::InvalidFieldValue { field: "resources", expected: "array" });
            },
        };
        let ghost f = resource_decoder();
        let mut resources: Vec<ResourceLock> = Vec::new();
        let mut i: usize = 0;
        assert(items@.subrange(0, 0) =~= Seq::<Value>::empty());
        assert(resources@.map_values(|r: ResourceLock| r@) =~= Seq::<ResourceLockModel>::empty());
        while i < items.len()
            invariant
                i <= items@.len(),
                f == resource_decoder(),
                get_table(doc@, "lock"@) == Some(lock@),
                get_int(lock@, "format"@) is Some,
                get_int(lock@, "format"@).unwrap() == 1,
                decode_root(lock@) == Some(root@),
                get_array(doc@, "resources"@) == Some(items@),
                collect_all(items@.subrange(0, i as int), f) == Ok::<_, LockFault>(
                    resources@.map_values(|r: ResourceLock| r@),
                ),
            decreases items.len() - i,
        {
            proof {
                lemma_collect_step(items@, f, i as int);
            }
            let item = match &items[i] {
                Value::Table(t) => read_resource(t),
                _ => Err(LockFileError::InvalidFieldValue { field: "resources[]", expected: "table" }),
            };
            match item {
                Ok(res) => {
                    let ghost before = resources@;
                    resources.push(res);
                    proof {
                        assert(resources@.map_values(|r: ResourceLock| r@) =~= before.map_values(
                            |r: ResourceLock| r@,
                        ).push(res@));
                    }
                },
                Err(e) => {
                    proof {
                        assert(f(items@[i as int]) == Err::<ResourceLockModel, LockFault>(e@));
                        assert(collect_all(items@.subrange(0, i + 1), f) == Err::<
                            Seq<ResourceLockModel>,
                            LockFault,
                        >(e@));
                        lemma_collect_err_extends(items@, f, i + 1);
                        assert(collect_all(items@, f) == Err::<Seq<ResourceLockModel>, LockFault>(
                            e@,
                        ));
                    }
                    return Err(e);
                },
            }
            i += 1;
        }
        assert(items@.subrange(0, i as int) =~= items@);
        Ok(LockFile { lock: LockFileInfo { root }, resources })
    }
}

proof fn lemma_id_round_trip(id: u32)
    ensures
        ((id as i64) as u32) == id,
{
    assert(((id as i64) as u32) == id) by (bit_vector);
}

proof fn lemma_size_round_trip(size: u64)
    ensures
        ((size as i64) as u64) == size,
{
    assert(((size as i64) as u64) == size) by (bit_vector);
}

/// Write a name to id table.
fn write_refs(refs: &Vec<(String, u32)>) -> (r: Vec<(String, Value)>)
    ensures
        decode_refs(r@) == Some(refs_view(refs@)),
{
    let mut out: Vec<(String, Value)> = Vec::new();
    let mut i: usize = 0;
    while i < refs.len()
        invariant
            i <= refs@.len(),
            out@.len() == i,
            forall|j: int| 0 <= j < i ==> #[trigger] out@[j].1 is Integer,
            forall|j: int|
                0 <= j < i ==> (#[trigger] out@[j]).0@ == refs@[j].0@ && id_of(out@[j].1)
                    == refs@[j].1,
        decreases refs.len() - i,
    {
        let name = refs[i].0.clone();
        let id = refs[i].1;
        proof {
            lemma_id_round_trip(id);
        }
        out.push((name, Value::Integer(id as i64)));
        i += 1;
    }
    assert(out@.map_values(|p: (String, Value)| (p.0@, id_of(p.1))) =~= refs_view(refs@));
    out
}

/// Write one locked resource as a table.
fn write_resource(res: &ResourceLock) -> (r: Vec<(String, Value)>)
    ensures
        decode_resource_table(r@) == Ok::<_, LockFault>(res@),
{
    let mut lock: Vec<(String, Value)> = Vec::new();
    lock.push((String::from_str("hash"), Value::String(res.lock.hash.to_base32())));
    lock.push((String::from_str("size"), Value::Integer(res.lock.size as i64)));
    let mut t: Vec<(String, Value)> = Vec::new();
    t.push((String::from_str("url"), Value::String(res.url.clone())));
    t.push((String::from_str("format"), Value::String(res.format.to_string())));
    t.push((String::from_str("lock"), Value::Table(lock)));
    let ghost base = t@;
    match &res.inputs {
        Some(inputs) => {
            t.push((String::from_str("inputs"), Value::Table(write_refs(inputs))));
        },
        None => {},
    }
    let ghost with_inputs = t@;
    match &res.outputs {
        Some(outputs) => {
            t.push((String::from_str("outputs"), Value::Table(write_refs(outputs))));
        },
        None => {},
    }
    proof {
        reveal_strlit("url");
        reveal_strlit("format");
        reveal_strlit("lock");
        reveal_strlit("hash");
        reveal_strlit("size");
        reveal_strlit("inputs");
        reveal_strlit("outputs");
        lemma_format_text_round_trip(res.format);
        lemma_base32_round_trip(res.lock.hash);
        lemma_size_round_trip(res.lock.size);
        let l = lock@;
        assert(l[0].0@ == "hash"@);
        assert(l[1].0@ == "size"@);
        assert(l.drop_first().drop_first().len() == 0);
        reveal_with_fuel(crate::document::table_get, 6);
        assert(get_int(l, "size"@) == Some(res.lock.size as i64)) by {
            assert("hash"@[0] != "size"@[0]);
            assert(l.drop_first()[0] == l[1]);
        }
        assert(decode_hash(l) == Some(res.lock.hash));
        let s = t@;
        assert(s[0].0@ == "url"@);
        assert(s[1].0@ == "format"@);
        assert(s[2].0@ == "lock"@);
        assert(s.drop_first()[0] == s[1]);
        assert(s.drop_first().drop_first()[0] == s[2]);
        assert("format"@ != "url"@);
        assert("lock"@ != "url"@);
        assert("lock"@ != "format"@);
        assert("inputs"@ != "url"@);
        assert("inputs"@[0] != "format"@[0]);
        assert("inputs"@ != "lock"@);
        assert("outputs"@ != "url"@);
        assert("outputs"@ != "format"@);
        assert("outputs"@ != "lock"@);
        assert("outputs"@ != "inputs"@);
        assert(get_str(s, "url"@) == Some(res.url@));
        assert(get_str(s, "format"@) == Some(crate::format::format_text(res.format)));
        assert(get_table(s, "lock"@) == Some(l));
        let s3 = s.drop_first().drop_first().drop_first();
        assert(decode_ref_field(s, "inputs"@, "<resource>.inputs"@) == Ok::<_, LockFault>(
            opt_refs_view(res.inputs),
        )) by {
            assert(get_table(s, "inputs"@) == get_table(s3, "inputs"@));
            match res.inputs {
                Some(_) => {
                    assert(s3[0].0@ == "inputs"@);
                },
                None => {
                    if s3.len() > 0 {
                        assert(s3[0].0@ == "outputs"@);
                        assert(s3.drop_first().len() == 0);
                    }
                },
            }
        }
        assert(decode_ref_field(s, "outputs"@, "<resource>.outputs"@) == Ok::<_, LockFault>(
            opt_refs_view(res.outputs),
        )) by {
            assert(get_table(s, "outputs"@) == get_table(s3, "outputs"@));
            match res.inputs {
                Some(_) => {
                    assert(s3[0].0@ == "inputs"@);
                    let s4 = s3.drop_first();
                    match res.outputs {
                        Some(_) => {
                            assert(s4[0].0@ == "outputs"@);
                        },
                        None => {
                            assert(s4.len() == 0);
                        },
                    }
                },
                None => {
                    match res.outputs {
                        Some(_) => {
                            assert(s3[0].0@ == "outputs"@);
                        },
                        None => {
                            assert(s3.len() == 0);
                        },
                    }
                },
            }
        }
    }
    t
}

impl LockFile {
    /// Write the lock file as a document; reading that document back gives
    /// the same lock file.
    pub fn to_table(&self) -> (r: Vec<(String, Value)>)
        ensures
            decode_lock(r@) == Ok::<_, LockFault>(self@),
    {
        let mut root: Vec<Value> = Vec::new();
        let mut i: usize = 0;
        while i < self.lock.root.len()
            invariant
                i <= self.lock.root@.len(),
                root@.len() == i,
                forall|j: int| 0 <= j < i ==> #[trigger] root@[j] is Integer,
                forall|j: int| 0 <= j < i ==> id_of(#[trigger] root@[j]) == self.lock.root@[j],
            decreases self.lock.root.len() - i,
        {
            let id = self.lock.root[i];
            proof {
                lemma_id_round_trip(id);
            }
            root.push(Value::Integer(id as i64));
            i += 1;
        }
        assert(root@.map_values(|v: Value| id_of(v)) =~= self.lock.root@);
        let mut items: Vec<Value> = Vec::new();
        let mut k: usize = 0;
        while k < self.resources.len()
            invariant
                k <= self.resources@.len(),
                items@.len() == k,
                forall|j: int|
                    0 <= j < k ==> decode_resource(#[trigger] items@[j]) == Ok::<_, LockFault>(
                        self.resources@[j]@,
                    ),
            decreases self.resources.len() - k,
        {
            items.push(Value::Table(write_resource(&self.resources[k])));
            k += 1;
        }
        let ghost ms = self.resources@.map_values(|r: ResourceLock| r@);
        proof {
            lemma_collect_all_ok(items@, resource_decoder(), ms);
        }
        let ghost root_items = root@;
        let mut info: Vec<(String, Value)> = Vec::new();
        info.push((String::from_str("format"), Value::Integer(1)));
        info.push((String::from_str("root"), Value::Array(root)));
        let ghost items_view = items@;
        let mut doc: Vec<(String, Value)> = Vec::new();
        doc.push((String::from_str("lock"), Value::Table(info)));
        doc.push((String::from_str("resources"), Value::Array(items)));
        proof {
            reveal_strlit("lock");
            reveal_strlit("format");
            reveal_strlit("root");
            reveal_strlit("resources");
            reveal_with_fuel(crate::document::table_get, 3);
            let d = doc@;
            let f = info@;
            assert(d[0].0@ == "lock"@);
            assert(d[1].0@ == "resources"@);
            assert(d.drop_first()[0] == d[1]);
            assert(f[0].0@ == "format"@);
            assert(f[1].0@ == "root"@);
            assert(f.drop_first()[0] == f[1]);
            assert("root"@ != "format"@);
            assert("resources"@ != "lock"@);
            assert(get_table(d, "lock"@) == Some(f));
            assert(get_int(f, "format"@) == Some(1i64));
            assert(get_array(f, "root"@) == Some(root_items));
            assert(decode_root(f) == Some(self.lock.root@));
            assert(get_array(d, "resources"@) == Some(items_view));
        }
        doc
    }
}

impl crate::hash::AsHash for (String, u32) {
    open spec fn hash_spec(&self) -> crate::hash::Hash {
        crate::hash::Hash(self.0.hash_spec().0 ^ self.1.hash_spec().0)
    }

    fn hash(&self) -> (r: crate::hash::Hash) {
        self.0.hash().chain(self.1.hash())
    }
}

impl crate::hash::AsHash for ResourceLockData {
    open spec fn hash_spec(&self) -> crate::hash::Hash {
        self.hash
    }

    fn hash(&self) -> (r: crate::hash::Hash) {
        self.hash
    }
}

impl crate::hash::AsHash for LockFileInfo {
    open spec fn hash_spec(&self) -> crate::hash::Hash {
        self.root.hash_spec()
    }

    fn hash(&self) -> (r: crate::hash::Hash) {
        self.root.hash()
    }
}

impl crate::hash::AsHash for ResourceLock {
    open spec fn hash_spec(&self) -> crate::hash::Hash {
        crate::hash::Hash(self.url.hash_spec().0 ^ self.format.hash_spec().0 ^ self.lock.hash_spec().0
            ^ self.inputs.hash_spec().0 ^ self.outputs.hash_spec().0)
    }

    fn hash(&self) -> (r: crate::hash::Hash) {
        self.url.hash().chain(self.format.hash()).chain(self.lock.hash()).chain(self.inputs.hash()).chain(
            self.outputs.hash(),
        )
    }
}

impl crate::hash::AsHash for LockFile {
    open spec fn hash_spec(&self) -> crate::hash::Hash {
        crate::hash::Hash(self.lock.hash_spec().0 ^ self.resources.hash_spec().0)
    }

    fn hash(&self) -> (r: crate::hash::Hash) {
        self.lock.hash().chain(self.resources.hash())
    }
}

} // verus!
