use vstd::prelude::*;
use crate::archive::{archive_format_of, ArchiveFormat};
use crate::text::{chars_of, ends_with_text, find_char, first_index, has_suffix, is_first, is_text, slice_of, lemma_first_unique};

verus! {

/// Errors met while reading a package manifest or a format name.
#[derive(Debug, Clone, PartialEq, Eq)]
pub enum PackageManifestError {
    ResourceUnknownFormat(String),
    ResourceUnknownModuleFormat(String),
    ResourceUnknownArchiveFormat(String),
    ResourceMissingUri,
    ResourceInvalidHashFormat(String),
    PackageUnknownFormatVersion(u16),
    PackageInvalidFieldFormat { field: &'static str, expected: &'static str },
}

/// The meaning of a [`PackageManifestError`].
pub enum ManifestFault {
    UnknownFormat(Seq<char>),
    UnknownModuleFormat(Seq<char>),
    UnknownArchiveFormat(Seq<char>),
    MissingUri,
    InvalidHashFormat(Seq<char>),
    UnknownFormatVersion(u16),
    InvalidField(Seq<char>, Seq<char>),
}

impl View for PackageManifestError {
    type V = ManifestFault;

    open spec fn view(&self) -> ManifestFault {
        match self {
            PackageManifestError::ResourceUnknownFormat(s) => ManifestFault::UnknownFormat(s@),
            PackageManifestError::ResourceUnknownModuleFormat(s) => ManifestFault::UnknownModuleFormat(
                s@,
            ),
            PackageManifestError::ResourceUnknownArchiveFormat(s) => ManifestFault::UnknownArchiveFormat(
                s@,
            ),
            PackageManifestError::ResourceMissingUri => ManifestFault::MissingUri,
            PackageManifestError::ResourceInvalidHashFormat(s) => ManifestFault::InvalidHashFormat(s@),
            PackageManifestError::PackageUnknownFormatVersion(v) => ManifestFault::UnknownFormatVersion(
                *v,
            ),
            PackageManifestError::PackageInvalidFieldFormat { field, expected } => ManifestFault::InvalidField(
                field@,
                expected@,
            ),
        }
    }
}

/// Script dialects of a module resource.
#[derive(Debug, Clone, Copy, PartialEq, Eq, Structural)]
pub enum ResourceModuleFormat {
    Auto,
    Luau,
}

/// Archive kinds of an archive resource; `Auto` probes by extension.
#[derive(Debug, Clone, Copy, PartialEq, Eq, Structural)]
pub enum ResourceArchiveFormat {
    Auto,
    Tar,
    Zip,
    Sevenz,
}

/// How a resource is treated.
#[derive(Debug, Clone, Copy, PartialEq, Eq, Structural)]
pub enum ResourceFormat {
    /// Opaque bytes, read by modules through their path.
    File,
    /// A manifest that declares further resources.
    Package,
    /// A script run by the runtime.
    Module(ResourceModuleFormat),
    /// An archive, extracted into the store.
    Archive(ResourceArchiveFormat),
}

impl Default for ResourceModuleFormat {
    fn default() -> (r: Self)
        ensures
            r == ResourceModuleFormat::Auto,
    {
        ResourceModuleFormat::Auto
    }
}

impl Default for ResourceArchiveFormat {
    fn default() -> (r: Self)
        ensures
            r == ResourceArchiveFormat::Auto,
    {
        ResourceArchiveFormat::Auto
    }
}

pub open spec fn module_text(m: ResourceModuleFormat) -> Seq<char> {
    match m {
        ResourceModuleFormat::Auto => "auto"@,
        ResourceModuleFormat::Luau => "luau"@,
    }
}

pub open spec fn archive_text(a: ResourceArchiveFormat) -> Seq<char> {
    match a {
        ResourceArchiveFormat::Auto => "auto"@,
        ResourceArchiveFormat::Tar => "tar"@,
        ResourceArchiveFormat::Zip => "zip"@,
        ResourceArchiveFormat::Sevenz => "7z"@,
    }
}

/// The text form of a resource format.
pub open spec fn format_text(f: ResourceFormat) -> Seq<char> {
    match f {
        ResourceFormat::File => "file"@,
        ResourceFormat::Package => "package"@,
        ResourceFormat::Module(m) => "module/"@ + module_text(m),
        ResourceFormat::Archive(a) => "archive/"@ + archive_text(a),
    }
}

/// The module dialect a name stands for.
pub open spec fn parse_module(s: Seq<char>) -> Result<ResourceModuleFormat, ManifestFault> {
    if s == "auto"@ {
        Ok(ResourceModuleFormat::Auto)
    } else if s == "luau"@ || s == "lua"@ {
        Ok(ResourceModuleFormat::Luau)
    } else {
        Err(ManifestFault::UnknownModuleFormat(s))
    }
}

/// The archive kind a name stands for.
pub open spec fn parse_archive(s: Seq<char>) -> Result<ResourceArchiveFormat, ManifestFault> {
    if s == "auto"@ {
        Ok(ResourceArchiveFormat::Auto)
    } else if s == "tar"@ {
        Ok(ResourceArchiveFormat::Tar)
    } else if s == "zip"@ {
        Ok(ResourceArchiveFormat::Zip)
    } else if s == "7z"@ || s == "sevenz"@ {
        Ok(ResourceArchiveFormat::Sevenz)
    } else {
        Err(ManifestFault::UnknownArchiveFormat(s))
    }
}

/// The part of a format text before the first `/`.
pub open spec fn primary_part(s: Seq<char>) -> Seq<char> {
    let i = first_index(s, '/');
    if i < 0 {
        s
    } else {
        s.subrange(0, i)
    }
}

/// The part of a format text after the first `/`, `auto` when there is none.
pub open spec fn secondary_part(s: Seq<char>) -> Seq<char> {
    let i = first_index(s, '/');
    if i < 0 {
        "auto"@
    } else {
        s.subrange(i + 1, s.len() as int)
    }
}

/// The resource format a text stands for.
pub open spec fn parse_format(s: Seq<char>) -> Result<ResourceFormat, ManifestFault> {
    let p = primary_part(s);
    let q = secondary_part(s);
    if p == "file"@ {
        Ok(ResourceFormat::File)
    } else if p == "package"@ {
        Ok(ResourceFormat::Package)
    } else if p == "module"@ {
        match parse_module(q) {
            Ok(m) => Ok(ResourceFormat::Module(m)),
            Err(e) => Err(e),
        }
    } else if p == "archive"@ {
        match parse_archive(q) {
            Ok(a) => Ok(ResourceFormat::Archive(a)),
            Err(e) => Err(e),
        }
    } else {
        Err(ManifestFault::UnknownFormat(s))
    }
}

/// Whether `c` separates path segments.
pub open spec fn is_sep(c: char) -> bool {
    c == '/' || c == '\\'
}

/// Whether `i` is the position of the last separator of `s`.
pub open spec fn is_last_sep(s: Seq<char>, i: int) -> bool {
    0 <= i < s.len() && is_sep(s[i]) && forall|j: int| i < j < s.len() ==> !is_sep(s[j])
}

/// The file name of a URI: what follows its last separator, the whole URI
/// when it has none.
pub open spec fn uri_file_name(u: Seq<char>) -> Seq<char> {
    if exists|i: int| is_last_sep(u, i) {
        u.subrange((choose|i: int| is_last_sep(u, i)) + 1, u.len() as int)
    } else {
        u
    }
}

pub open spec fn archive_kind(f: ArchiveFormat) -> ResourceArchiveFormat {
    match f {
        ArchiveFormat::Tar => ResourceArchiveFormat::Tar,
        ArchiveFormat::Zip => ResourceArchiveFormat::Zip,
        ArchiveFormat::Sevenz => ResourceArchiveFormat::Sevenz,
    }
}

/// The format a URI's file name suggests.
pub open spec fn format_of_uri(u: Seq<char>) -> ResourceFormat {
    let n = uri_file_name(u);
    match archive_format_of(n) {
        Some(f) => ResourceFormat::Archive(archive_kind(f)),
        None => if has_suffix(n, ".luau"@) || has_suffix(n, ".lua"@) {
            ResourceFormat::Module(ResourceModuleFormat::Luau)
        } else {
            ResourceFormat::File
        },
    }
}

proof fn lemma_last_sep_unique(s: Seq<char>, i: int, k: int)
    requires
        is_last_sep(s, i),
        is_last_sep(s, k),
    ensures
        i == k,
{
    if i < k {
        assert(!is_sep(s[k]));
    } else if k < i {
        assert(!is_sep(s[i]));
    }
}

/// The characters of the file name of a URI.
fn uri_file_name_of(u: &[char]) -> (r: Vec<char>)
    ensures
        r@ == uri_file_name(u@),
{
    let mut i: usize = u.len();
    while i > 0
        invariant
            i <= u@.len(),
            forall|j: int| i <= j < u@.len() ==> !is_sep(u@[j]),
        decreases i,
    {
        let c = u[i - 1];
        if c == '/' || c == '\\' {
            proof {
                assert(is_last_sep(u@, i - 1));
                let k = choose|k: int| is_last_sep(u@, k);
                lemma_last_sep_unique(u@, i - 1, k);
            }
            return slice_of(u, i, u.len());
        }
        i -= 1;
    }
    proof {
        assert(!exists|k: int| is_last_sep(u@, k));
        assert(u@.subrange(0, u@.len() as int) =~= u@);
    }
    crate::text::slice_of(u, 0, u.len())
}

impl From<ArchiveFormat> for ResourceArchiveFormat {
    fn from(f: ArchiveFormat) -> (r: Self) {
        match f {
            ArchiveFormat::Tar => ResourceArchiveFormat::Tar,
            ArchiveFormat::Zip => ResourceArchiveFormat::Zip,
            ArchiveFormat::Sevenz => ResourceArchiveFormat::Sevenz,
        }
    }
}

impl vstd::std_specs::convert::FromSpecImpl<ArchiveFormat> for ResourceArchiveFormat {
    open spec fn obeys_from_spec() -> bool {
        true
    }

    open spec fn from_spec(f: ArchiveFormat) -> Self {
        archive_kind(f)
    }
}

impl ResourceModuleFormat {
    /// The name of the dialect.
    pub fn to_string(&self) -> (r: String)
        ensures
            r@ == module_text(*self),
    {
        match self {
            ResourceModuleFormat::Auto => String::from_str("auto"),
            ResourceModuleFormat::Luau => String::from_str("luau"),
        }
    }

    /// The dialect a name stands for.
    pub fn from_str(s: &str) -> (r: Result<ResourceModuleFormat, PackageManifestError>)
        ensures
            match r {
                Ok(m) => parse_module(s@) == Ok::<ResourceModuleFormat, ManifestFault>(m),
                Err(e) => parse_module(s@) == Err::<ResourceModuleFormat, ManifestFault>(e@),
            },
    {
        let c = chars_of(s);
        Self::from_chars(c.as_slice())
    }

    fn from_chars(c: &[char]) -> (r: Result<ResourceModuleFormat, PackageManifestError>)
        ensures
            match r {
                Ok(m) => parse_module(c@) == Ok::<ResourceModuleFormat, ManifestFault>(m),
                Err(e) => parse_module(c@) == Err::<ResourceModuleFormat, ManifestFault>(e@),
            },
    {
        if is_text(c, "auto") {
            Ok(ResourceModuleFormat::Auto)
        } else if is_text(c, "luau") || is_text(c, "lua") {
            Ok(ResourceModuleFormat::Luau)
        } else {
            Err(PackageManifestError::ResourceUnknownModuleFormat(crate::text::string_of(c)))
        }
    }
}

impl ResourceArchiveFormat {
    /// The name of the archive kind.
    pub fn to_string(&self) -> (r: String)
        ensures
            r@ == archive_text(*self),
    {
        match self {
            ResourceArchiveFormat::Auto => String::from_str("auto"),
            ResourceArchiveFormat::Tar => String::from_str("tar"),
            ResourceArchiveFormat::Zip => String::from_str("zip"),
            ResourceArchiveFormat::Sevenz => String::from_str("7z"),
        }
    }

    /// The archive kind a name stands for.
    pub fn from_str(s: &str) -> (r: Result<ResourceArchiveFormat, PackageManifestError>)
        ensures
            match r {
                Ok(a) => parse_archive(s@) == Ok::<ResourceArchiveFormat, ManifestFault>(a),
                Err(e) => parse_archive(s@) == Err::<ResourceArchiveFormat, ManifestFault>(e@),
            },
    {
        let c = chars_of(s);
        Self::from_chars(c.as_slice())
    }

    fn from_chars(c: &[char]) -> (r: Result<ResourceArchiveFormat, PackageManifestError>)
        ensures
            match r {
                Ok(a) => parse_archive(c@) == Ok::<ResourceArchiveFormat, ManifestFault>(a),
                Err(e) => parse_archive(c@) == Err::<ResourceArchiveFormat, ManifestFault>(e@),
            },
    {
        if is_text(c, "auto") {
            Ok(ResourceArchiveFormat::Auto)
        } else if is_text(c, "tar") {
            Ok(ResourceArchiveFormat::Tar)
        } else if is_text(c, "zip") {
            Ok(ResourceArchiveFormat::Zip)
        } else if is_text(c, "7z") || is_text(c, "sevenz") {
            Ok(ResourceArchiveFormat::Sevenz)
        } else {
            Err(PackageManifestError::ResourceUnknownArchiveFormat(crate::text::string_of(c)))
        }
    }
}

impl ResourceFormat {
    /// The text form of the format.
    pub fn to_string(&self) -> (r: String)
        ensures
            r@ == format_text(*self),
    {
        match self {
            ResourceFormat::File => String::from_str("file"),
            ResourceFormat::Package => String::from_str("package"),
            ResourceFormat::Module(m) => {
                let t = m.to_string();
                String::from_str("module/").concat(t.as_str())
            },
            ResourceFormat::Archive(a) => {
                let t = a.to_string();
                String::from_str("archive/").concat(t.as_str())
            },
        }
    }

    /// The format a text stands for.
    pub fn from_str(s: &str) -> (r: Result<ResourceFormat, PackageManifestError>)
        ensures
            match r {
                Ok(f) => parse_format(s@) == Ok::<ResourceFormat, ManifestFault>(f),
                Err(e) => parse_format(s@) == Err::<ResourceFormat, ManifestFault>(e@),
            },
    {
        let c = chars_of(s);
        let (p, q) = match find_char(c.as_slice(), '/') {
            Some(i) => {
                assert(i < c.len());
                (slice_of(c.as_slice(), 0, i), slice_of(c.as_slice(), i + 1, c.len()))
            },
            None => (slice_of(c.as_slice(), 0, c.len()), chars_of("auto")),
        };
        assert(c@.subrange(0, c@.len() as int) =~= c@);
        if is_text(p.as_slice(), "file") {
            Ok(ResourceFormat::File)
        } else if is_text(p.as_slice(), "package") {
            Ok(ResourceFormat::Package)
        } else if is_text(p.as_slice(), "module") {
            if is_text(q.as_slice(), "auto") {
                Ok(ResourceFormat::Module(ResourceModuleFormat::default()))
            } else {
                match ResourceModuleFormat::from_chars(q.as_slice()) {
                    Ok(m) => Ok(ResourceFormat::Module(m)),
                    Err(e) => Err(e),
                }
            }
        } else if is_text(p.as_slice(), "archive") {
            if is_text(q.as_slice(), "auto") {
                Ok(ResourceFormat::Archive(ResourceArchiveFormat::default()))
            } else {
                match ResourceArchiveFormat::from_chars(q.as_slice()) {
                    Ok(a) => Ok(ResourceFormat::Archive(a)),
                    Err(e) => Err(e),
                }
            }
        } else {
            Err(PackageManifestError::ResourceUnknownFormat(String::from_str(s)))
        }
    }

    /// Guess the format of a resource from its URI: an archive extension
    /// gives an archive, `.lua` or `.luau` a module, anything else a file.
    pub fn from_uri(uri: &str) -> (r: ResourceFormat)
        ensures
            r == format_of_uri(uri@),
    {
        let u = chars_of(uri);
        let n = uri_file_name_of(u.as_slice());
        match ArchiveFormat::from_chars(n.as_slice()) {
            Some(f) => ResourceFormat::Archive(ResourceArchiveFormat::from(f)),
            None => if ends_with_text(n.as_slice(), ".luau") || ends_with_text(n.as_slice(), ".lua") {
                ResourceFormat::Module(ResourceModuleFormat::Luau)
            } else {
                ResourceFormat::File
            },
        }
    }
}

proof fn lemma_split_at(s: Seq<char>, head: Seq<char>, tail: Seq<char>)
    requires
        s == head + "/"@ + tail,
        forall|j: int| 0 <= j < head.len() ==> head[j] != '/',
    ensures
        primary_part(s) == head,
        secondary_part(s) == tail,
{
    reveal_strlit("/");
    assert(is_first(s, '/', head.len() as int));
    lemma_first_unique(s, '/', head.len() as int);
    assert(s.subrange(0, head.len() as int) =~= head);
    assert(s.subrange(head.len() as int + 1, s.len() as int) =~= tail);
}

/// Reading back the text form of a format gives the same format.
pub proof fn lemma_format_text_round_trip(f: ResourceFormat)
    ensures
        parse_format(format_text(f)) == Ok::<ResourceFormat, ManifestFault>(f),
{
    reveal_strlit("file");
    reveal_strlit("package");
    reveal_strlit("module");
    reveal_strlit("module/");
    reveal_strlit("archive");
    reveal_strlit("archive/");
    reveal_strlit("auto");
    reveal_strlit("luau");
    reveal_strlit("lua");
    reveal_strlit("tar");
    reveal_strlit("zip");
    reveal_strlit("7z");
    reveal_strlit("sevenz");
    match f {
        ResourceFormat::File => {
            let s = "file"@;
            assert(forall|j: int| 0 <= j < s.len() ==> s[j] != '/');
            crate::text::lemma_first_none(s, '/');
            assert(primary_part(s) == s);
            assert(format_text(f) == s);
            assert(parse_format(s) == Ok::<ResourceFormat, ManifestFault>(f));
        },
        ResourceFormat::Package => {
            let s = "package"@;
            assert(forall|j: int| 0 <= j < s.len() ==> s[j] != '/');
            crate::text::lemma_first_none(s, '/');
            assert(primary_part(s) == s);
            assert("package"@ != "file"@);
        },
        ResourceFormat::Module(m) => {
            assert("module/"@ + module_text(m) =~= "module"@ + "/"@ + module_text(m)) by {
                reveal_strlit("/");
            }
            lemma_split_at(format_text(f), "module"@, module_text(m));
            assert("module"@ != "file"@);
            assert("module"@ != "package"@);
            assert(parse_module(module_text(m)) == Ok::<ResourceModuleFormat, ManifestFault>(m)) by {
                assert("luau"@[0] != "auto"@[0]);
            }
        },
        ResourceFormat::Archive(a) => {
            assert("archive/"@ + archive_text(a) =~= "archive"@ + "/"@ + archive_text(a)) by {
                reveal_strlit("/");
            }
            lemma_split_at(format_text(f), "archive"@, archive_text(a));
            assert("archive"@ != "file"@);
            assert("archive"@ != "package"@);
            assert("archive"@ != "module"@);
            assert(parse_archive(archive_text(a)) == Ok::<ResourceArchiveFormat, ManifestFault>(a))
                by {
                assert("tar"@ != "auto"@);
                assert("zip"@ != "auto"@);
                assert("zip"@[0] != "tar"@[0]);
                assert("7z"@ != "auto"@);
                assert("7z"@ != "tar"@);
                assert("7z"@ != "zip"@);
            }
        },
    }
}

impl crate::hash::AsHash for ResourceFormat {
    open spec fn hash_spec(&self) -> crate::hash::Hash {
        crate::hash::Hash(crate::hash::seahash_of(vstd::utf8::encode_utf8(format_text(*self))))
    }

    fn hash(&self) -> (r: crate::hash::Hash) {
        let t = self.to_string();
        crate::hash::Hash::for_slice(t.as_str().as_bytes())
    }
}

impl crate::hash::AsHash for ResourceModuleFormat {
    open spec fn hash_spec(&self) -> crate::hash::Hash {
        crate::hash::Hash(crate::hash::seahash_of(vstd::utf8::encode_utf8(module_text(*self))))
    }

    fn hash(&self) -> (r: crate::hash::Hash) {
        let t = self.to_string();
        crate::hash::Hash::for_slice(t.as_str().as_bytes())
    }
}

impl crate::hash::AsHash for ResourceArchiveFormat {
    open spec fn hash_spec(&self) -> crate::hash::Hash {
        crate::hash::Hash(crate::hash::seahash_of(vstd::utf8::encode_utf8(archive_text(*self))))
    }

    fn hash(&self) -> (r: crate::hash::Hash) {
        let t = self.to_string();
        crate::hash::Hash::for_slice(t.as_str().as_bytes())
    }
}

} // verus!
