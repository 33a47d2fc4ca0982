use vstd::prelude::*;
use crate::archive::{ArchiveEntry, ArchiveFormat};
use crate::text::{chars_of, find_char, has_prefix, is_first, starts_with, slice_of, string_of};

verus! {

/// One progress report: bytes extracted so far, the total, and the count
/// before this file.
#[derive(Debug, Clone, Copy, PartialEq, Eq, Structural)]
pub struct ProgressEvent {
    pub current: u64,
    pub total: u64,
    pub previous: u64,
}

/// Progress of an extraction, fed with the files the extractor reports.
#[derive(Debug)]
pub struct ExtractionProgress {
    /// The archive's files and their sizes, each path once.
    pub files: Vec<(String, u64)>,
    pub current: u64,
    pub total: u64,
}

/// `a + b`, or the largest `u64` when it does not fit.
pub open spec fn sat_add(a: u64, b: u64) -> u64 {
    if a + b > u64::MAX {
        u64::MAX
    } else {
        (a + b) as u64
    }
}

/// The saturating sum of the sizes of a file table.
pub open spec fn sizes_sum(files: Seq<(String, u64)>) -> u64
    decreases files.len(),
{
    if files.len() == 0 {
        0
    } else {
        sat_add(sizes_sum(files.drop_last()), files.last().1)
    }
}

/// Whether a path is in a file table.
pub open spec fn listed(files: Seq<(String, u64)>, path: Seq<char>) -> bool {
    exists|i: int| 0 <= i < files.len() && (#[trigger] files[i]).0@ == path
}

fn add_sat(a: u64, b: u64) -> (r: u64)
    ensures
        r == sat_add(a, b),
{
    if a > u64::MAX - b {
        u64::MAX
    } else {
        a + b
    }
}

impl ExtractionProgress {
    /// Each path is listed once.
    pub open spec fn wf(&self) -> bool {
        forall|a: int, b: int| 0 <= a < b < self.files@.len() ==> self.files@[a].0@ != self.files@[b].0@
    }

    /// Start tracking an extraction of the given entries; a path listed
    /// twice keeps its last size. The total is the (saturating) sum.
    pub fn new(entries: &Vec<ArchiveEntry>) -> (r: ExtractionProgress)
        ensures
            r.wf(),
            r.current == 0,
            r.total == sizes_sum(r.files@),
            entries@.len() == 0 ==> r.files@.len() == 0,
            forall|i: int| 0 <= i < entries@.len() ==> listed(r.files@, (#[trigger] entries@[i]).path@),
    {
        let mut files: Vec<(String, u64)> = Vec::new();
        let mut i: usize = 0;
        while i < entries.len()
            invariant
                i <= entries@.len(),
                forall|a: int, b: int| 0 <= a < b < files@.len() ==> files@[a].0@ != files@[b].0@,
                forall|k: int| 0 <= k < i ==> listed(files@, (#[trigger] entries@[k]).path@),
                i == 0 ==> files@.len() == 0,
            decreases entries.len() - i,
        {
            let e = &entries[i];
            let mut j: usize = 0;
            let mut at: Option<usize> = None;
            while j < files.len()
                invariant
                    j <= files@.len(),
                    at matches Some(x) ==> x < files@.len() && files@[x as int].0@ == e.path@,
                    at is None ==> forall|k: int| 0 <= k < j ==> files@[k].0@ != e.path@,
                decreases files.len() - j,
            {
                if at.is_none() && files[j].0.eq(&e.path) {
                    at = Some(j);
                }
                j += 1;
            }
            let found = at.is_some();
            let j: usize = match at {
                Some(x) => x,
                None => 0,
            };
            let ghost before = files@;
            if found {
                files.set(j, (e.path.clone(), e.size));
                proof {
                    assert forall|a: int, b: int| 0 <= a < b < files@.len() implies files@[a].0@ != files@[b].0@ by {
                        assert(files@[j as int].0@ == before[j as int].0@);
                        if a != j {
                            assert(files@[a] == before[a]);
                        }
                        if b != j {
                            assert(files@[b] == before[b]);
                        }
                    }
                    assert forall|k: int| 0 <= k < i + 1 implies listed(files@, (#[trigger] entries@[k]).path@) by {
                        if k < i {
                            let q = choose|q: int| 0 <= q < before.len() && (#[trigger] before[q]).0@ == entries@[k].path@;
                            assert(files@[q].0@ == before[q].0@);
                        } else {
                            assert(files@[j as int].0@ == e.path@);
                        }
                    }
                }
            } else {
                files.push((e.path.clone(), e.size));
                proof {
                    assert forall|k: int| 0 <= k < i + 1 implies listed(files@, (#[trigger] entries@[k]).path@) by {
                        if k < i {
                            let q = choose|q: int| 0 <= q < before.len() && (#[trigger] before[q]).0@ == entries@[k].path@;
                            assert(files@[q] == before[q]);
                        } else {
                            assert(files@[files@.len() - 1].0@ == e.path@);
                        }
                    }
                }
            }
            i += 1;
        }
        let mut total: u64 = 0;
        let mut k: usize = 0;
        while k < files.len()
            invariant
                k <= files@.len(),
                total == sizes_sum(files@.subrange(0, k as int)),
            decreases files.len() - k,
        {
            proof {
                assert(files@.subrange(0, k + 1).drop_last() =~= files@.subrange(0, k as int));
            }
            total = add_sat(total, files[k].1);
            k += 1;
        }
        assert(files@.subrange(0, k as int) =~= files@);
        ExtractionProgress { files, current: 0, total }
    }

    /// Count a file the extractor reports. A listed file advances the
    /// count by its size (saturating) and gives an event; any other path
    /// gives none and changes nothing.
    pub fn on_file(&mut self, path: &str) -> (r: Option<ProgressEvent>)
        requires
            old(self).wf(),
        ensures
            final(self).wf(),
            final(self).files@ == old(self).files@,
            final(self).total == old(self).total,
            match r {
                Some(ev) => exists|i: int| 0 <= i < old(self).files@.len() && (#[trigger] old(self).files@[i]).0@ == path@
                    && ev.previous == old(self).current && ev.current == sat_add(old(self).current, old(self).files@[i].1)
                    && ev.total == old(self).total && final(self).current == ev.current,
                None => !listed(old(self).files@, path@) && final(self).current == old(self).current,
            },
    {
        let p = String::from_str(path);
        let mut i: usize = 0;
        while i < self.files.len()
            invariant
                self.wf(),
                self.files@ == old(self).files@,
                self.total == old(self).total,
                self.current == old(self).current,
                i <= self.files@.len(),
                p@ == path@,
                forall|k: int| 0 <= k < i ==> self.files@[k].0@ != path@,
            decreases self.files.len() - i,
        {
            if self.files[i].0.eq(&p) {
                let previous = self.current;
                self.current = add_sat(previous, self.files[i].1);
                return Some(ProgressEvent { current: self.current, total: self.total, previous });
            }
            i += 1;
        }
        None
    }
}

/// An extraction of an archive with no entries reports no progress: every
/// reported path is unlisted and the count stays at zero.
pub proof fn lemma_empty_archive_reports_nothing(p: ExtractionProgress, path: Seq<char>)
    requires
        p.files@.len() == 0,
    ensures
        !listed(p.files@, path),
        sizes_sum(p.files@) == 0,
{
}

/// Whether a character is ASCII white space.
pub open spec fn is_space(c: char) -> bool {
    c == ' ' || c == '\t' || c == '\n' || c == '\r' || c == '\x0b' || c == '\x0c'
}

/// `s` without white space at its end.
pub open spec fn trim_end_spaces(s: Seq<char>) -> Seq<char>
    decreases s.len(),
{
    if s.len() > 0 && is_space(s.last()) {
        trim_end_spaces(s.drop_last())
    } else {
        s
    }
}

/// Whether `": "` starts at `j`.
pub open spec fn is_colon_space(s: Seq<char>, j: int) -> bool {
    0 <= j && j + 1 < s.len() && s[j] == ':' && s[j + 1] == ' '
}

/// Whether `": "` starts first at `i`.
pub open spec fn first_colon_space(s: Seq<char>, i: int) -> bool {
    is_colon_space(s, i) && forall|j: int| 0 <= j < i ==> !#[trigger] is_colon_space(s, j)
}

/// The first place where `": "` starts in `s`, or -1.
pub open spec fn colon_space_at(s: Seq<char>) -> int {
    if exists|i: int| first_colon_space(s, i) {
        choose|i: int| first_colon_space(s, i)
    } else {
        -1
    }
}

/// The file a line of the extractor's output reports, if any: every line
/// of tar's; for zip, a line starting with a space and holding `": "`,
/// what follows, without the output folder prefix and trailing space; for
/// 7z, what follows a leading `"- "`.
pub open spec fn reported_file(format: ArchiveFormat, line: Seq<char>, prefix: Seq<char>) -> Option<Seq<char>> {
    match format {
        ArchiveFormat::Tar => Some(line),
        ArchiveFormat::Sevenz => if has_prefix(line, "- "@) {
            Some(line.subrange(2, line.len() as int))
        } else {
            None
        },
        ArchiveFormat::Zip => if line.len() > 0 && line[0] == ' ' {
            let rest = line.drop_first();
            let i = colon_space_at(rest);
            if i >= 0 {
                let file = rest.subrange(i + 2, rest.len() as int);
                let file = if has_prefix(file, prefix) { file.subrange(prefix.len() as int, file.len() as int) } else { file };
                Some(trim_end_spaces(file))
            } else {
                None
            }
        } else {
            None
        },
    }
}

proof fn lemma_colon_unique(s: Seq<char>, i: int)
    requires
        first_colon_space(s, i),
    ensures
        colon_space_at(s) == i,
{
    let k = colon_space_at(s);
    assert(first_colon_space(s, k));
    if k < i {
        assert(!is_colon_space(s, k));
    } else if k > i {
        assert(!is_colon_space(s, i));
    }
}

/// The file a line of the extractor's output reports.
pub fn reported_file_of(format: ArchiveFormat, line: &str, prefix: &str) -> (r: Option<String>)
    ensures
        match r {
            Some(f) => reported_file(format, line@, prefix@) == Some(f@),
            None => reported_file(format, line@, prefix@).is_none(),
        },
{
    let c = chars_of(line);
    match format {
        ArchiveFormat::Tar => Some(String::from_str(line)),
        ArchiveFormat::Sevenz => {
            let d = chars_of("- ");
            if starts_with(c.as_slice(), d.as_slice()) {
                proof {
                    reveal_strlit("- ");
                }
                Some(string_of(slice_of(c.as_slice(), 2, c.len()).as_slice()))
            } else {
                None
            }
        },
        ArchiveFormat::Zip => {
            if c.len() == 0 || c[0] != ' ' {
                return None;
            }
            let rest = slice_of(c.as_slice(), 1, c.len());
            proof {
                assert(rest@ =~= line@.drop_first());
            }
            let n = rest.len();
            let mut i: usize = 0;
            let mut at: Option<usize> = None;
            while i < n
                invariant
                    n == rest@.len(),
                    i <= n,
                    at matches Some(x) ==> first_colon_space(rest@, x as int),
                    at is None ==> forall|j: int| 0 <= j < i ==> !#[trigger] is_colon_space(rest@, j),
                decreases n - i,
            {
                if at.is_none() && i + 1 < n && rest[i] == ':' && rest[i + 1] == ' ' {
                    at = Some(i);
                }
                i += 1;
            }
            let i = match at {
                Some(i) => {
                    proof {
                        lemma_colon_unique(rest@, i as int);
                    }
                    i
                },
                None => {
                    proof {
                        assert forall|k: int| !first_colon_space(rest@, k) by {
                            if first_colon_space(rest@, k) {
                                assert(is_colon_space(rest@, k));
                            }
                        }
                    }
                    return None;
                },
            };
            let file = slice_of(rest.as_slice(), i + 2, n);
            let pc = chars_of(prefix);
            let file = if starts_with(file.as_slice(), pc.as_slice()) {
                slice_of(file.as_slice(), pc.len(), file.len())
            } else {
                file
            };
            let mut end: usize = file.len();
            assert(file@.subrange(0, end as int) =~= file@);
            while end > 0 && (file[end - 1] == ' ' || file[end - 1] == '\t' || file[end - 1] == '\n'
                || file[end - 1] == '\r' || file[end - 1] == '\x0b' || file[end - 1] == '\x0c')
                invariant
                    end <= file@.len(),
                    trim_end_spaces(file@) == trim_end_spaces(file@.subrange(0, end as int)),
                decreases end,
            {
                proof {
                    assert(file@.subrange(0, end as int).drop_last() =~= file@.subrange(0, end - 1));
                }
                end -= 1;
            }
            proof {
                let t = file@.subrange(0, end as int);
                if t.len() > 0 {
                    assert(t.last() == file@[end - 1]);
                }
                assert(trim_end_spaces(t) == t);
            }
            Some(string_of(slice_of(file.as_slice(), 0, end).as_slice()))
        },
    }
}

} // verus!
