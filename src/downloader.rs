use vstd::prelude::*;
use crate::engine::{parse_u64, u64_text_value};
use crate::text::{chars_of, find_char, first_index, has_prefix, is_text, slice_of, starts_with};

verus! {

/// Options of a download that the decisions depend on; the progress
/// callbacks live with the transfer itself.
#[derive(Debug, Clone, Copy, PartialEq, Eq, Structural)]
pub struct DownloadOptions {
    /// Append to an existing output file instead of starting over.
    pub continue_download: bool,
}

impl Default for DownloadOptions {
    fn default() -> (r: Self)
        ensures
            r.continue_download,
    {
        DownloadOptions { continue_download: true }
    }
}

/// What to do with the response to a ranged request.
#[derive(Debug, Clone, Copy, PartialEq, Eq, Structural)]
pub enum RangeOutcome {
    /// Everything is already on disk: the download is over, `total` bytes.
    Complete { total: u64 },
    /// Read the body; `total` is the expected size when the headers give it.
    Stream { total: Option<u64> },
}

/// The total that `Content-Length` gives: what is on disk plus the length
/// of the rest, when it parses and fits.
pub open spec fn total_from_length(downloaded: u64, content_length: Option<Seq<char>>) -> Option<u64> {
    match content_length {
        Some(cl) => match u64_text_value(cl) {
            Some(v) => if downloaded + v <= u64::MAX {
                Some((downloaded + v) as u64)
            } else {
                None
            },
            None => None,
        },
        None => None,
    }
}

/// The decision on a response to `Range: bytes=<downloaded>-`.
///
/// Status 416, or a `Content-Range` of `bytes */<size>`, means the file is
/// complete at what is on disk. Otherwise the body is read; the expected
/// total comes from `Content-Range`'s size when it parses, else from
/// `Content-Length` added to what is on disk.
pub open spec fn range_outcome_spec(
    downloaded: u64,
    status: u16,
    content_length: Option<Seq<char>>,
    content_range: Option<Seq<char>>,
) -> RangeOutcome {
    let by_length = total_from_length(downloaded, content_length);
    if status == 416 {
        RangeOutcome::Complete { total: downloaded }
    } else {
        match content_range {
            Some(cr) => if has_prefix(cr, "bytes "@) {
                let rest = cr.subrange(6, cr.len() as int);
                let i = first_index(rest, '/');
                if i >= 0 {
                    if rest.subrange(0, i) == "*"@ {
                        RangeOutcome::Complete { total: downloaded }
                    } else {
                        match u64_text_value(rest.subrange(i + 1, rest.len() as int)) {
                            Some(v) => RangeOutcome::Stream { total: Some(v as u64) },
                            None => RangeOutcome::Stream { total: by_length },
                        }
                    }
                } else {
                    RangeOutcome::Stream { total: by_length }
                }
            } else {
                RangeOutcome::Stream { total: by_length }
            },
            None => RangeOutcome::Stream { total: by_length },
        }
    }
}

pub open spec fn opt_text(o: Option<&str>) -> Option<Seq<char>> {
    match o {
        Some(s) => Some(s@),
        None => None,
    }
}

/// Decide what a response to a ranged request means.
pub fn range_outcome(
    downloaded: u64,
    status: u16,
    content_length: Option<&str>,
    content_range: Option<&str>,
) -> (r: RangeOutcome)
    ensures
        r == range_outcome_spec(downloaded, status, opt_text(content_length), opt_text(content_range)),
{
    if status == 416 {
        return RangeOutcome::Complete { total: downloaded };
    }
    let by_length: Option<u64> = match content_length {
        Some(cl) => {
            let c = chars_of(cl);
            match parse_u64(c.as_slice()) {
                Some(v) => if v <= u64::MAX - downloaded {
                    Some(downloaded + v)
                } else {
                    None
                },
                None => None,
            }
        },
        None => None,
    };
    match content_range {
        Some(cr) => {
            let c = chars_of(cr);
            let prefix = chars_of("bytes ");
            if !starts_with(c.as_slice(), prefix.as_slice()) {
                return RangeOutcome::Stream { total: by_length };
            }
            proof {
                reveal_strlit("bytes ");
            }
            let rest = slice_of(c.as_slice(), 6, c.len());
            match find_char(rest.as_slice(), '/') {
                Some(i) => {
                    let range = slice_of(rest.as_slice(), 0, i);
                    if is_text(range.as_slice(), "*") {
                        return RangeOutcome::Complete { total: downloaded };
                    }
                    let size = slice_of(rest.as_slice(), i + 1, rest.len());
                    match parse_u64(size.as_slice()) {
                        Some(v) => RangeOutcome::Stream { total: Some(v) },
                        None => RangeOutcome::Stream { total: by_length },
                    }
                },
                None => RangeOutcome::Stream { total: by_length },
            }
        },
        None => RangeOutcome::Stream { total: by_length },
    }
}

} // verus!
