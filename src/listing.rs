use vstd::prelude::*;
use crate::archive::ArchiveEntry;
use crate::engine::{parse_u64, u64_text_value};
use crate::extraction::is_space;
use crate::text::{chars_of, has_prefix, slice_of, starts_with, string_of};

verus! {

/// The `c`-separated pieces of a text, empty ones included.
pub open spec fn split_by(s: Seq<char>, c: char) -> Seq<Seq<char>>
    decreases s.len(),
{
    if s.len() == 0 {
        seq![Seq::empty()]
    } else {
        let p = split_by(s.drop_last(), c);
        if s.last() == c {
            p.push(Seq::empty())
        } else {
            p.update(p.len() - 1, p.last().push(s.last()))
        }
    }
}

proof fn lemma_split_by_len(s: Seq<char>, c: char)
    ensures
        split_by(s, c).len() >= 1,
    decreases s.len(),
{
    if s.len() > 0 {
        lemma_split_by_len(s.drop_last(), c);
    }
}

/// Split a text on a character.
pub fn split_char(p: &[char], c: char) -> (r: Vec<Vec<char>>)
    ensures
        r@.map_values(|v: Vec<char>| v@) == split_by(p@, c),
{
    let mut segs: Vec<Vec<char>> = Vec::new();
    let mut cur: Vec<char> = Vec::new();
    let mut k: usize = 0;
    while k < p.len()
        invariant
            k <= p@.len(),
            split_by(p@.subrange(0, k as int), c) == segs@.map_values(|v: Vec<char>| v@).push(cur@),
        decreases p.len() - k,
    {
        let x = p[k];
        proof {
            assert(p@.subrange(0, k + 1).drop_last() =~= p@.subrange(0, k as int));
        }
        let ghost sv = segs@.map_values(|v: Vec<char>| v@);
        let ghost cv = cur@;
        if x == c {
            segs.push(cur);
            cur = Vec::new();
            proof {
                assert(segs@.map_values(|v: Vec<char>| v@) =~= sv.push(cv));
            }
        } else {
            cur.push(x);
            proof {
                let q = sv.push(cv);
                assert(q.update(q.len() - 1, q.last().push(x)) =~= sv.push(cur@));
            }
        }
        k += 1;
    }
    assert(p@.subrange(0, p@.len() as int) =~= p@);
    let ghost sv = segs@.map_values(|v: Vec<char>| v@);
    let ghost cv = cur@;
    segs.push(cur);
    assert(segs@.map_values(|v: Vec<char>| v@) =~= sv.push(cv));
    segs
}

/// `s` without white space at its start.
pub open spec fn trim_start_spaces(s: Seq<char>) -> Seq<char>
    decreases s.len(),
{
    if s.len() > 0 && is_space(s[0]) {
        trim_start_spaces(s.drop_first())
    } else {
        s
    }
}

/// `s` without white space at either end.
pub open spec fn trim_spaces(s: Seq<char>) -> Seq<char> {
    crate::extraction::trim_end_spaces(trim_start_spaces(s))
}

/// Trim white space at both ends.
pub fn trim(s: &[char]) -> (r: Vec<char>)
    ensures
        r@ == trim_spaces(s@),
{
    let mut a: usize = 0;
    assert(s@.subrange(0, s@.len() as int) =~= s@);
    while a < s.len() && is_space_char(s[a])
        invariant
            a <= s@.len(),
            trim_start_spaces(s@) == trim_start_spaces(s@.subrange(a as int, s@.len() as int)),
        decreases s.len() - a,
    {
        proof {
            assert(s@.subrange(a as int, s@.len() as int).drop_first() =~= s@.subrange(a + 1, s@.len() as int));
        }
        a += 1;
    }
    let ghost t = s@.subrange(a as int, s@.len() as int);
    proof {
        if t.len() > 0 {
            assert(t[0] == s@[a as int]);
        }
        assert(trim_start_spaces(t) == t);
        assert(t.subrange(0, t.len() as int) =~= t);
    }
    let mut b: usize = s.len();
    while b > a && is_space_char(s[b - 1])
        invariant
            a <= b <= s@.len(),
            t == s@.subrange(a as int, s@.len() as int),
            crate::extraction::trim_end_spaces(t) == crate::extraction::trim_end_spaces(s@.subrange(a as int, b as int)),
        decreases b,
    {
        proof {
            assert(s@.subrange(a as int, b as int).drop_last() =~= s@.subrange(a as int, b - 1));
        }
        b -= 1;
    }
    proof {
        let u = s@.subrange(a as int, b as int);
        if u.len() > 0 {
            assert(u.last() == s@[b - 1]);
        }
        assert(crate::extraction::trim_end_spaces(u) == u);
    }
    slice_of(s, a, b)
}

fn is_space_char(c: char) -> (r: bool)
    ensures
        r == is_space(c),
{
    c == ' ' || c == '\t' || c == '\n' || c == '\r' || c == '\x0b' || c == '\x0c'
}

/// Whether a text is not empty, as a function value.
pub open spec fn nonempty_word() -> spec_fn(Seq<char>) -> bool {
    |s: Seq<char>| s.len() > 0
}

/// The words of a line: its space-separated pieces, trimmed, without the
/// empty ones.
pub open spec fn words_of(line: Seq<char>) -> Seq<Seq<char>> {
    split_by(line, ' ').map_values(|w: Seq<char>| trim_spaces(w)).filter(nonempty_word())
}

/// Split a line into its words.
pub fn words(line: &[char]) -> (r: Vec<Vec<char>>)
    ensures
        r@.map_values(|v: Vec<char>| v@) == words_of(line@),
{
    let pieces = split_char(line, ' ');
    let ghost pv = pieces@.map_values(|v: Vec<char>| v@);
    let ghost tv = pv.map_values(|w: Seq<char>| trim_spaces(w));
    let mut out: Vec<Vec<char>> = Vec::new();
    let mut i: usize = 0;
    assert(tv.subrange(0, 0) =~= Seq::<Seq<char>>::empty());
    assert(out@.map_values(|v: Vec<char>| v@) =~= Seq::<Seq<char>>::empty());
    while i < pieces.len()
        invariant
            pv == pieces@.map_values(|v: Vec<char>| v@),
            tv == pv.map_values(|w: Seq<char>| trim_spaces(w)),
            i <= pieces@.len(),
            out@.map_values(|v: Vec<char>| v@) == tv.subrange(0, i as int).filter(nonempty_word()),
        decreases pieces.len() - i,
    {
        let w = trim(pieces[i].as_slice());
        let ghost a = tv.subrange(0, i as int);
        let ghost b = tv.subrange(0, i + 1);
        proof {
            assert(b.drop_last() =~= a);
            assert(b.last() == trim_spaces(pieces@[i as int]@));
            reveal_with_fuel(Seq::filter, 2);
        }
        if w.len() > 0 {
            let ghost before = out@.map_values(|v: Vec<char>| v@);
            let ghost wv = w@;
            out.push(w);
            proof {
                assert(nonempty_word()(wv));
                assert(out@.map_values(|v: Vec<char>| v@) =~= before.push(wv));
            }
        } else {
            proof {
                assert(!nonempty_word()(w@));
            }
        }
        i += 1;
    }
    assert(tv.subrange(0, i as int) =~= tv);
    out
}

/// The entry a line of `tar -tv` output lists: the third word is the size,
/// the last word (at least the fourth) the path; symbolic links (flags
/// starting with `l`) are left out.
pub open spec fn tar_line_entry(line: Seq<char>) -> Option<(Seq<char>, u64)> {
    let ws = words_of(line);
    if ws.len() >= 4 && !has_prefix(ws[0], "l"@) {
        match u64_text_value(ws[2]) {
            Some(v) => Some((ws.last(), v as u64)),
            None => None,
        }
    } else {
        None
    }
}

/// Whether a listing line is the closing rule.
pub open spec fn is_rule(line: Seq<char>) -> bool {
    has_prefix(line, "---------"@)
}

/// The entries of lines, in order.
pub open spec fn tar_entries_of(lines: Seq<Seq<char>>) -> Seq<(Seq<char>, u64)>
    decreases lines.len(),
{
    if lines.len() == 0 {
        Seq::empty()
    } else {
        let rest = tar_entries_of(lines.drop_last());
        match tar_line_entry(lines.last()) {
            Some(e) => rest.push(e),
            None => rest,
        }
    }
}

/// The number of lines before the first closing rule.
pub open spec fn before_rule(lines: Seq<Seq<char>>) -> int {
    if exists|i: int| 0 <= i < lines.len() && is_rule(lines[i]) && forall|j: int| 0 <= j < i ==> !#[trigger] is_rule(lines[j]) {
        choose|i: int| 0 <= i < lines.len() && is_rule(lines[i]) && forall|j: int| 0 <= j < i ==> !#[trigger] is_rule(lines[j])
    } else {
        lines.len() as int
    }
}

/// The entries a `tar -tv` listing holds: its trimmed lines up to the
/// first rule, each read as above.
pub open spec fn tar_listing(text: Seq<char>) -> Seq<(Seq<char>, u64)> {
    let lines = split_by(trim_spaces(text), '\n');
    tar_entries_of(lines.subrange(0, before_rule(lines)))
}

pub open spec fn entries_view(v: Seq<ArchiveEntry>) -> Seq<(Seq<char>, u64)> {
    v.map_values(|e: ArchiveEntry| (e.path@, e.size))
}

fn tar_line(line: &[char]) -> (r: Option<ArchiveEntry>)
    ensures
        match r {
            Some(e) => tar_line_entry(line@) == Some((e.path@, e.size)),
            None => tar_line_entry(line@).is_none(),
        },
{
    let ws = words(line);
    let ghost wv = ws@.map_values(|v: Vec<char>| v@);
    if ws.len() < 4 {
        return None;
    }
    let l = chars_of("l");
    if starts_with(ws[0].as_slice(), l.as_slice()) {
        return None;
    }
    match parse_u64(ws[2].as_slice()) {
        Some(size) => {
            let path = string_of(ws[ws.len() - 1].as_slice());
            proof {
                assert(wv.last() == ws@[ws@.len() - 1]@);
            }
            Some(ArchiveEntry { path, size })
        },
        None => None,
    }
}

/// Read a `tar -tv` listing.
pub fn parse_tar_listing(text: &str) -> (r: Vec<ArchiveEntry>)
    ensures
        entries_view(r@) == tar_listing(text@),
{
    let c = chars_of(text);
    let t = trim(c.as_slice());
    let lines = split_char(t.as_slice(), '\n');
    let ghost lv = lines@.map_values(|v: Vec<char>| v@);
    let rule = chars_of("---------");
    let mut out: Vec<ArchiveEntry> = Vec::new();
    let mut i: usize = 0;
    assert(lv.subrange(0, 0) =~= Seq::<Seq<char>>::empty());
    assert(entries_view(out@) =~= Seq::<(Seq<char>, u64)>::empty());
    while i < lines.len()
        invariant
            lv == lines@.map_values(|v: Vec<char>| v@),
            lv == split_by(trim_spaces(text@), '\n'),
            rule@ == "---------"@,
            i <= lines@.len(),
            forall|j: int| 0 <= j < i ==> !#[trigger] is_rule(lv[j]),
            entries_view(out@) == tar_entries_of(lv.subrange(0, i as int)),
        decreases lines.len() - i,
    {
        if starts_with(lines[i].as_slice(), rule.as_slice()) {
            proof {
                let k = before_rule(lv);
                assert(is_rule(lv[i as int]));
                assert(0 <= k < lv.len() && is_rule(lv[k]) && forall|j: int| 0 <= j < k ==> !#[trigger] is_rule(lv[j]));
                if k < i {
                    assert(!is_rule(lv[k]));
                } else if k > i {
                    assert(!is_rule(lv[i as int]));
                }
                assert(k == i);
            }
            return out;
        }
        proof {
            assert(lv.subrange(0, i + 1).drop_last() =~= lv.subrange(0, i as int));
            assert(lv.subrange(0, i + 1).last() == lines@[i as int]@);
        }
        match tar_line(lines[i].as_slice()) {
            Some(e) => {
                let ghost before = entries_view(out@);
                out.push(e);
                proof {
                    assert(entries_view(out@) =~= before.push((e.path@, e.size)));
                }
            },
            None => {},
        }
        i += 1;
    }
    proof {
        assert(before_rule(lv) == lv.len()) by {
            if exists|k: int| 0 <= k < lv.len() && is_rule(lv[k]) && forall|j: int| 0 <= j < k ==> !#[trigger] is_rule(lv[j]) {
                let k = choose|k: int| 0 <= k < lv.len() && is_rule(lv[k]) && forall|j: int| 0 <= j < k ==> !#[trigger] is_rule(lv[j]);
                assert(!is_rule(lv[k]));
            }
        }
        assert(lv.subrange(0, lv.len() as int) =~= lv);
    }
    out
}

/// The pieces of `rest` separated by two spaces, the first one starting
/// with `cur`; read left to right, each separator taken as soon as met.
pub open spec fn split2_from(cur: Seq<char>, rest: Seq<char>) -> Seq<Seq<char>>
    decreases rest.len(),
{
    if rest.len() >= 2 && rest[0] == ' ' && rest[1] == ' ' {
        seq![cur] + split2_from(Seq::empty(), rest.subrange(2, rest.len() as int))
    } else if rest.len() == 0 {
        seq![cur]
    } else {
        split2_from(cur.push(rest[0]), rest.drop_first())
    }
}

/// The words of a zip listing line: its pieces between two spaces,
/// trimmed, without the empty ones.
pub open spec fn zip_words_of(line: Seq<char>) -> Seq<Seq<char>> {
    split2_from(Seq::empty(), line).map_values(|w: Seq<char>| trim_spaces(w)).filter(nonempty_word())
}

/// Split a line on two spaces.
fn split_two_spaces(s: &[char]) -> (r: Vec<Vec<char>>)
    ensures
        r@.map_values(|v: Vec<char>| v@) == split2_from(Seq::empty(), s@),
{
    let mut segs: Vec<Vec<char>> = Vec::new();
    let mut cur: Vec<char> = Vec::new();
    let n = s.len();
    let mut k: usize = 0;
    assert(s@.subrange(0, n as int) =~= s@);
    while k < n
        invariant
            n == s@.len(),
            k <= n,
            segs@.map_values(|v: Vec<char>| v@) + split2_from(cur@, s@.subrange(k as int, n as int)) == split2_from(Seq::empty(), s@),
        decreases n - k,
    {
        let ghost rest = s@.subrange(k as int, n as int);
        let ghost sv = segs@.map_values(|v: Vec<char>| v@);
        if k + 1 < n && s[k] == ' ' && s[k + 1] == ' ' {
            let ghost cv = cur@;
            segs.push(cur);
            cur = Vec::new();
            proof {
                assert(rest[0] == ' ' && rest[1] == ' ');
                assert(rest.subrange(2, rest.len() as int) =~= s@.subrange(k + 2, n as int));
                assert(segs@.map_values(|v: Vec<char>| v@) =~= sv.push(cv));
                assert(sv.push(cv) + split2_from(Seq::empty(), s@.subrange(k + 2, n as int)) =~= sv + (seq![cv] + split2_from(Seq::empty(), s@.subrange(k + 2, n as int))));
            }
            k += 2;
        } else {
            let c = s[k];
            cur.push(c);
            proof {
                assert(rest.len() > 0);
                assert(rest[0] == c);
                assert(rest.drop_first() =~= s@.subrange(k + 1, n as int));
                assert(!(rest.len() >= 2 && rest[0] == ' ' && rest[1] == ' '));
            }
            k += 1;
        }
    }
    let ghost sv = segs@.map_values(|v: Vec<char>| v@);
    let ghost cv = cur@;
    segs.push(cur);
    proof {
        assert(s@.subrange(k as int, n as int) =~= Seq::<char>::empty());
        assert(segs@.map_values(|v: Vec<char>| v@) =~= sv.push(cv));
        assert(sv.push(cv) =~= sv + seq![cv]);
    }
    segs
}

/// Split a zip listing line into its words.
fn zip_words(line: &[char]) -> (r: Vec<Vec<char>>)
    ensures
        r@.map_values(|v: Vec<char>| v@) == zip_words_of(line@),
{
    let pieces = split_two_spaces(line);
    let ghost pv = pieces@.map_values(|v: Vec<char>| v@);
    let ghost tv = pv.map_values(|w: Seq<char>| trim_spaces(w));
    let mut out: Vec<Vec<char>> = Vec::new();
    let mut i: usize = 0;
    assert(tv.subrange(0, 0) =~= Seq::<Seq<char>>::empty());
    assert(out@.map_values(|v: Vec<char>| v@) =~= Seq::<Seq<char>>::empty());
    while i < pieces.len()
        invariant
            pv == pieces@.map_values(|v: Vec<char>| v@),
            tv == pv.map_values(|w: Seq<char>| trim_spaces(w)),
            i <= pieces@.len(),
            out@.map_values(|v: Vec<char>| v@) == tv.subrange(0, i as int).filter(nonempty_word()),
        decreases pieces.len() - i,
    {
        let w = trim(pieces[i].as_slice());
        let ghost a = tv.subrange(0, i as int);
        let ghost b = tv.subrange(0, i + 1);
        proof {
            assert(b.drop_last() =~= a);
            assert(b.last() == trim_spaces(pieces@[i as int]@));
            reveal_with_fuel(Seq::filter, 2);
        }
        if w.len() > 0 {
            let ghost before = out@.map_values(|v: Vec<char>| v@);
            let ghost wv = w@;
            out.push(w);
            proof {
                assert(nonempty_word()(wv));
                assert(out@.map_values(|v: Vec<char>| v@) =~= before.push(wv));
            }
        } else {
            proof {
                assert(!nonempty_word()(w@));
            }
        }
        i += 1;
    }
    assert(tv.subrange(0, i as int) =~= tv);
    out
}

/// The entry a line of `unzip -l` output lists: the first word is the
/// size, the last word (at least the second) the path.
pub open spec fn zip_line_entry(line: Seq<char>) -> Option<(Seq<char>, u64)> {
    let ws = zip_words_of(line);
    if ws.len() >= 2 {
        match u64_text_value(ws[0]) {
            Some(v) => Some((ws.last(), v as u64)),
            None => None,
        }
    } else {
        None
    }
}

/// The entries of zip listing lines, in order.
pub open spec fn zip_entries_of(lines: Seq<Seq<char>>) -> Seq<(Seq<char>, u64)>
    decreases lines.len(),
{
    if lines.len() == 0 {
        Seq::empty()
    } else {
        let rest = zip_entries_of(lines.drop_last());
        match zip_line_entry(lines.last()) {
            Some(e) => rest.push(e),
            None => rest,
        }
    }
}

/// The lines of a zip listing's body: the trimmed lines past the three
/// header lines.
pub open spec fn zip_body(text: Seq<char>) -> Seq<Seq<char>> {
    let lines = split_by(trim_spaces(text), '\n');
    if lines.len() > 3 {
        lines.subrange(3, lines.len() as int)
    } else {
        Seq::empty()
    }
}

/// The entries a `unzip -l` listing holds: the body lines up to the first
/// rule, each read as above.
pub open spec fn zip_listing(text: Seq<char>) -> Seq<(Seq<char>, u64)> {
    let body = zip_body(text);
    zip_entries_of(body.subrange(0, before_rule(body)))
}

fn zip_line(line: &[char]) -> (r: Option<ArchiveEntry>)
    ensures
        match r {
            Some(e) => zip_line_entry(line@) == Some((e.path@, e.size)),
            None => zip_line_entry(line@).is_none(),
        },
{
    let ws = zip_words(line);
    let ghost wv = ws@.map_values(|v: Vec<char>| v@);
    if ws.len() < 2 {
        return None;
    }
    match parse_u64(ws[0].as_slice()) {
        Some(size) => {
            let path = string_of(ws[ws.len() - 1].as_slice());
            proof {
                assert(wv.last() == ws@[ws@.len() - 1]@);
            }
            Some(ArchiveEntry { path, size })
        },
        None => None,
    }
}

/// Read a `unzip -l` listing.
pub fn parse_zip_listing(text: &str) -> (r: Vec<ArchiveEntry>)
    ensures
        entries_view(r@) == zip_listing(text@),
{
    let c = chars_of(text);
    let t = trim(c.as_slice());
    let all = split_char(t.as_slice(), '\n');
    let ghost av = all@.map_values(|v: Vec<char>| v@);
    let ghost bv = zip_body(text@);
    let rule = chars_of("---------");
    let mut out: Vec<ArchiveEntry> = Vec::new();
    if all.len() <= 3 {
        proof {
            assert(bv =~= Seq::<Seq<char>>::empty());
            assert(before_rule(bv) == 0);
            assert(bv.subrange(0, 0) =~= Seq::<Seq<char>>::empty());
        }
        assert(entries_view(out@) =~= Seq::<(Seq<char>, u64)>::empty());
        return out;
    }
    let mut i: usize = 3;
    proof {
        assert(bv == av.subrange(3, av.len() as int));
        assert(bv.subrange(0, 0) =~= Seq::<Seq<char>>::empty());
    }
    assert(entries_view(out@) =~= Seq::<(Seq<char>, u64)>::empty());
    while i < all.len()
        invariant
            av == all@.map_values(|v: Vec<char>| v@),
            av.len() > 3,
            bv == av.subrange(3, av.len() as int),
            bv == zip_body(text@),
            rule@ == "---------"@,
            3 <= i <= all@.len(),
            forall|j: int| 0 <= j < i - 3 ==> !#[trigger] is_rule(bv[j]),
            entries_view(out@) == zip_entries_of(bv.subrange(0, i - 3)),
        decreases all.len() - i,
    {
        let ghost b = i - 3;
        proof {
            assert(bv[b] == all@[i as int]@);
        }
        if starts_with(all[i].as_slice(), rule.as_slice()) {
            proof {
                let k = before_rule(bv);
                assert(is_rule(bv[b]));
                assert(0 <= k < bv.len() && is_rule(bv[k]) && forall|j: int| 0 <= j < k ==> !#[trigger] is_rule(bv[j]));
                if k < b {
                    assert(!is_rule(bv[k]));
                } else if k > b {
                    assert(!is_rule(bv[b]));
                }
                assert(k == b);
            }
            return out;
        }
        proof {
            assert(bv.subrange(0, b + 1).drop_last() =~= bv.subrange(0, b));
            assert(bv.subrange(0, b + 1).last() == all@[i as int]@);
        }
        match zip_line(all[i].as_slice()) {
            Some(e) => {
                let ghost before = entries_view(out@);
                out.push(e);
                proof {
                    assert(entries_view(out@) =~= before.push((e.path@, e.size)));
                }
            },
            None => {},
        }
        i += 1;
    }
    proof {
        assert(before_rule(bv) == bv.len()) by {
            if exists|k: int| 0 <= k < bv.len() && is_rule(bv[k]) && forall|j: int| 0 <= j < k ==> !#[trigger] is_rule(bv[j]) {
                let k = choose|k: int| 0 <= k < bv.len() && is_rule(bv[k]) && forall|j: int| 0 <= j < k ==> !#[trigger] is_rule(bv[j]);
                assert(!is_rule(bv[k]));
            }
        }
        assert(bv.subrange(0, bv.len() as int) =~= bv);
    }
    out
}

} // verus!
