use vstd::prelude::*;
use crate::text::{chars_of, ends_with_text, has_suffix, is_text};

verus! {

/// Archive kinds the extractor knows.
#[derive(Debug, Clone, Copy, PartialEq, Eq, Structural)]
pub enum ArchiveFormat {
    Tar,
    Zip,
    Sevenz,
}

/// Whether the path ends with a tar extension.
pub open spec fn tar_suffix(p: Seq<char>) -> bool {
    has_suffix(p, ".tar"@) || has_suffix(p, ".tar.xz"@) || has_suffix(p, ".tar.gz"@)
        || has_suffix(p, ".tar.bz2"@) || has_suffix(p, ".tar.zst"@) || has_suffix(p, ".tar.zstd"@)
        || has_suffix(p, ".txz"@) || has_suffix(p, ".tgz"@) || has_suffix(p, ".tbz2"@)
        || has_suffix(p, ".tzst"@) || has_suffix(p, ".tzstd"@)
}

/// Whether the path ends with a 7z extension.
pub open spec fn sevenz_suffix(p: Seq<char>) -> bool {
    has_suffix(p, ".7z"@) || has_suffix(p, ".7z.001"@) || has_suffix(p, ".zip.001"@)
}

/// The archive format guessed from a path's extension; tar extensions are
/// tried first, then zip, then 7z.
pub open spec fn archive_format_of(p: Seq<char>) -> Option<ArchiveFormat> {
    if tar_suffix(p) {
        Some(ArchiveFormat::Tar)
    } else if has_suffix(p, ".zip"@) {
        Some(ArchiveFormat::Zip)
    } else if sevenz_suffix(p) {
        Some(ArchiveFormat::Sevenz)
    } else {
        None
    }
}

/// The name of an archive format.
pub open spec fn archive_name(f: ArchiveFormat) -> Seq<char> {
    match f {
        ArchiveFormat::Tar => "tar"@,
        ArchiveFormat::Zip => "zip"@,
        ArchiveFormat::Sevenz => "7z"@,
    }
}

/// The archive format a name stands for.
pub open spec fn archive_format_named(s: Seq<char>) -> Option<ArchiveFormat> {
    if s == "tar"@ {
        Some(ArchiveFormat::Tar)
    } else if s == "zip"@ {
        Some(ArchiveFormat::Zip)
    } else if s == "7z"@ || s == "sevenz"@ {
        Some(ArchiveFormat::Sevenz)
    } else {
        None
    }
}

/// Whether the path ends with a tar extension.
fn has_tar_suffix(p: &[char]) -> (r: bool)
    ensures
        r == tar_suffix(p@),
{
    ends_with_text(p, ".tar") || ends_with_text(p, ".tar.xz") || ends_with_text(p, ".tar.gz")
        || ends_with_text(p, ".tar.bz2") || ends_with_text(p, ".tar.zst") || ends_with_text(
        p,
        ".tar.zstd",
    ) || ends_with_text(p, ".txz") || ends_with_text(p, ".tgz") || ends_with_text(p, ".tbz2")
        || ends_with_text(p, ".tzst") || ends_with_text(p, ".tzstd")
}

impl ArchiveFormat {
    /// Guess the archive format from a path's extension.
    pub fn from_path(path: &str) -> (r: Option<ArchiveFormat>)
        ensures
            r == archive_format_of(path@),
    {
        let p = chars_of(path);
        Self::from_chars(p.as_slice())
    }

    /// Guess the archive format from the characters of a path.
    pub fn from_chars(p: &[char]) -> (r: Option<ArchiveFormat>)
        ensures
            r == archive_format_of(p@),
    {
        if has_tar_suffix(p) {
            Some(ArchiveFormat::Tar)
        } else if ends_with_text(p, ".zip") {
            Some(ArchiveFormat::Zip)
        } else if ends_with_text(p, ".7z") || ends_with_text(p, ".7z.001") || ends_with_text(
            p,
            ".zip.001",
        ) {
            Some(ArchiveFormat::Sevenz)
        } else {
            None
        }
    }

    /// The name of the format.
    pub fn name(&self) -> (r: &'static str)
        ensures
            r@ == archive_name(*self),
    {
        match self {
            ArchiveFormat::Tar => "tar",
            ArchiveFormat::Zip => "zip",
            ArchiveFormat::Sevenz => "7z",
        }
    }

    /// The format a name stands for; the name of an unknown format is
    /// handed back as the error.
    pub fn from_str(s: &str) -> (r: Result<ArchiveFormat, String>)
        ensures
            match r {
                Ok(f) => archive_format_named(s@) == Some(f),
                Err(e) => archive_format_named(s@).is_none() && e@ == s@,
            },
    {
        let c = chars_of(s);
        if is_text(c.as_slice(), "tar") {
            Ok(ArchiveFormat::Tar)
        } else if is_text(c.as_slice(), "zip") {
            Ok(ArchiveFormat::Zip)
        } else if is_text(c.as_slice(), "7z") || is_text(c.as_slice(), "sevenz") {
            Ok(ArchiveFormat::Sevenz)
        } else {
            Err(String::from_str(s))
        }
    }
}

/// One entry of an archive.
#[derive(Debug, Clone, PartialEq, Eq)]
pub struct ArchiveEntry {
    /// Path of the entry, relative to the archive's root.
    pub path: String,
    /// Size of the entry in bytes.
    pub size: u64,
}

/// An archive on disk, with its format.
#[derive(Debug, Clone, PartialEq, Eq)]
pub enum Archive {
    Tar(String),
    Zip(String),
    Sevenz(String),
}

impl Archive {
    /// The path of the archive.
    pub open spec fn path_spec(&self) -> Seq<char> {
        match self {
            Archive::Tar(p) => p@,
            Archive::Zip(p) => p@,
            Archive::Sevenz(p) => p@,
        }
    }

    /// The format of the archive.
    pub open spec fn format_spec(&self) -> ArchiveFormat {
        match self {
            Archive::Tar(_) => ArchiveFormat::Tar,
            Archive::Zip(_) => ArchiveFormat::Zip,
            Archive::Sevenz(_) => ArchiveFormat::Sevenz,
        }
    }

    /// Open an archive, guessing its format from the extension; `None` when
    /// the extension is not known.
    pub fn open(path: String) -> (r: Option<Archive>)
        ensures
            match r {
                Some(a) => archive_format_of(path@) == Some(a.format_spec()) && a.path_spec()
                    == path@,
                None => archive_format_of(path@).is_none(),
            },
    {
        match ArchiveFormat::from_path(path.as_str()) {
            Some(format) => Self::open_with_format(path, format),
            None => None,
        }
    }

    /// Open an archive whose format is already known.
    pub fn open_with_format(path: String, format: ArchiveFormat) -> (r: Option<Archive>)
        ensures
            match r {
                Some(a) => a.format_spec() == format && a.path_spec() == path@,
                None => false,
            },
    {
        match format {
            ArchiveFormat::Tar => Some(Archive::Tar(path)),
            ArchiveFormat::Zip => Some(Archive::Zip(path)),
            ArchiveFormat::Sevenz => Some(Archive::Sevenz(path)),
        }
    }

    /// The format of the archive.
    pub fn format(&self) -> (r: ArchiveFormat)
        ensures
            r == self.format_spec(),
    {
        match self {
            Archive::Tar(_) => ArchiveFormat::Tar,
            Archive::Zip(_) => ArchiveFormat::Zip,
            Archive::Sevenz(_) => ArchiveFormat::Sevenz,
        }
    }
}

} // verus!
