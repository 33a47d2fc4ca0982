use wineyard::archive::{ArchiveEntry, ArchiveFormat};
use wineyard::extraction::{reported_file_of, ExtractionProgress, ProgressEvent};
use wineyard::listing::{parse_tar_listing, parse_zip_listing};

fn entry(path: &str, size: u64) -> ArchiveEntry {
    ArchiveEntry { path: path.to_string(), size }
}

#[test]
fn empty_archive_reports_no_progress() {
    let mut p = ExtractionProgress::new(&vec![]);
    assert_eq!(p.total, 0);
    assert_eq!(p.on_file("anything"), None);
    assert_eq!(p.on_file(""), None);
    assert_eq!(p.current, 0);
}

#[test]
fn progress_counts_listed_files() {
    let mut p = ExtractionProgress::new(&vec![entry("a", 10), entry("b/c", 5), entry("a", 7)]);
    assert_eq!(p.total, 12);
    assert_eq!(p.on_file("b/c"), Some(ProgressEvent { current: 5, total: 12, previous: 0 }));
    assert_eq!(p.on_file("zzz"), None);
    assert_eq!(p.on_file("a"), Some(ProgressEvent { current: 12, total: 12, previous: 5 }));
}

#[test]
fn extractor_lines() {
    assert_eq!(reported_file_of(ArchiveFormat::Tar, "dir/file", "/out/").as_deref(), Some("dir/file"));
    assert_eq!(reported_file_of(ArchiveFormat::Sevenz, "- dir/file", "/out/").as_deref(), Some("dir/file"));
    assert_eq!(reported_file_of(ArchiveFormat::Sevenz, "Extracting", "/out/"), None);
    assert_eq!(
        reported_file_of(ArchiveFormat::Zip, "  inflating: /out/sus/3x.webp  ", "/out/").as_deref(),
        Some("sus/3x.webp")
    );
    assert_eq!(
        reported_file_of(ArchiveFormat::Zip, " extracting: sus/1001.pck", "/out/").as_deref(),
        Some("sus/1001.pck")
    );
    assert_eq!(reported_file_of(ArchiveFormat::Zip, "Archive:  x.zip", "/out/"), None);
    assert_eq!(reported_file_of(ArchiveFormat::Zip, " no separator", "/out/"), None);
}

#[test]
fn tar_listing_is_read() {
    let text = "\
-rw-r--r-- user/group      1234 2024-01-01 10:00 dir/file.txt
drwxr-xr-x user/group         0 2024-01-01 10:00 dir/
lrwxrwxrwx user/group         0 2024-01-01 10:00 dir/link -> file.txt
-rw-r--r-- user/group  notanumber 2024-01-01 10:00 dir/bad
---------
-rw-r--r-- user/group        99 2024-01-01 10:00 after/rule
";
    let entries = parse_tar_listing(text);
    assert_eq!(entries, vec![entry("dir/file.txt", 1234), entry("dir/", 0)]);
    assert!(parse_tar_listing("").is_empty());
    assert!(parse_tar_listing("a b c").is_empty());
}

#[test]
fn zip_listing_is_read() {
    let text = "\
Archive:  demo.zip
  Length      Date    Time    Name
---------  ---------- -----   ----
     1234  2024-01-01 10:00   dir/my file.txt
        0  2024-01-01 10:00   dir/
       x7  2024-01-01 10:00   bad
---------                     -------
     1234                     2 files
";
    let entries = parse_zip_listing(text);
    assert_eq!(entries, vec![entry("dir/my file.txt", 1234), entry("dir/", 0)]);
    assert!(parse_zip_listing("").is_empty());
    assert!(parse_zip_listing("a\nb\nc").is_empty());
}
