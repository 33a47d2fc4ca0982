use vstd::prelude::*;
use crate::text::{chars_of, is_text, push_char, string_of};
use crate::url::{slash_map, split_segs};

verus! {

/// Split characters on `/`, empty segments included.
pub fn split_on_slash(p: &[char]) -> (r: Vec<Vec<char>>)
    ensures
        r@.map_values(|v: Vec<char>| v@) == split_segs(p@),
{
    let mut segs: Vec<Vec<char>> = Vec::new();
    let mut cur: Vec<char> = Vec::new();
    let mut k: usize = 0;
    while k < p.len()
        invariant
            k <= p@.len(),
            split_segs(p@.subrange(0, k as int)) == segs@.map_values(|v: Vec<char>| v@).push(cur@),
        decreases p.len() - k,
    {
        let c = p[k];
        let ghost pre = p@.subrange(0, k as int);
        proof {
            assert(p@.subrange(0, k + 1).drop_last() =~= pre);
        }
        if c == '/' {
            let ghost before = segs@.map_values(|v: Vec<char>| v@);
            let ghost cv = cur@;
            segs.push(cur);
            cur = Vec::new();
            proof {
                assert(segs@.map_values(|v: Vec<char>| v@) =~= before.push(cv));
            }
        } else {
            let ghost sv = segs@.map_values(|v: Vec<char>| v@);
            let ghost cv = cur@;
            cur.push(c);
            proof {
                let q = sv.push(cv);
                assert(q.update(q.len() - 1, q.last().push(c)) =~= sv.push(cur@));
            }
        }
        k += 1;
    }
    assert(p@.subrange(0, p@.len() as int) =~= p@);
    let ghost before = segs@.map_values(|v: Vec<char>| v@);
    let ghost cv = cur@;
    segs.push(cur);
    assert(segs@.map_values(|v: Vec<char>| v@) =~= before.push(cv));
    segs
}

/// Backslashes replaced by forward slashes.
fn unify_slashes(p: &[char]) -> (r: Vec<char>)
    ensures
        r@ == slash_map(p@),
{
    let mut m: Vec<char> = Vec::new();
    let mut i: usize = 0;
    while i < p.len()
        invariant
            i <= p@.len(),
            m@ == slash_map(p@.subrange(0, i as int)),
        decreases p.len() - i,
    {
        let c = if p[i] == '\\' { '/' } else { p[i] };
        m.push(c);
        proof {
            assert(slash_map(p@.subrange(0, i + 1)) =~= slash_map(p@.subrange(0, i as int)).push(c));
        }
        i += 1;
    }
    assert(p@.subrange(0, p@.len() as int) =~= p@);
    m
}

/// One step over path parts: `.` and empty parts vanish, `..` removes the
/// last part (failing when there is none), anything else is kept.
pub open spec fn part_step(st: Seq<Seq<char>>, part: Seq<char>) -> Option<Seq<Seq<char>>> {
    if part == "."@ || part.len() == 0 || part == "/"@ || part == "\\"@ {
        Some(st)
    } else if part == ".."@ {
        if st.len() == 0 {
            None
        } else {
            Some(st.drop_last())
        }
    } else {
        Some(st.push(part))
    }
}

pub open spec fn parts_fold(parts: Seq<Seq<char>>) -> Option<Seq<Seq<char>>>
    decreases parts.len(),
{
    if parts.len() == 0 {
        Some(Seq::empty())
    } else {
        match parts_fold(parts.drop_last()) {
            None => None,
            Some(st) => part_step(st, parts.last()),
        }
    }
}

/// The normal parts of a path's parts; none when `..` climbs above the
/// start or nothing is left.
pub open spec fn normal_parts(parts: Seq<Seq<char>>) -> Option<Seq<Seq<char>>> {
    match parts_fold(parts) {
        Some(st) => if st.len() > 0 {
            Some(st)
        } else {
            None
        },
        None => None,
    }
}

pub open spec fn texts(v: Seq<String>) -> Seq<Seq<char>> {
    v.map_values(|s: String| s@)
}

/// Normalize path parts.
pub fn normalize_path_parts(parts: &Vec<String>) -> (r: Option<Vec<String>>)
    ensures
        match r {
            Some(v) => normal_parts(texts(parts@)) == Some(texts(v@)),
            None => normal_parts(texts(parts@)).is_none(),
        },
{
    let mut st: Vec<String> = Vec::new();
    let mut i: usize = 0;
    assert(texts(parts@).subrange(0, 0) =~= Seq::<Seq<char>>::empty());
    assert(texts(st@) =~= Seq::<Seq<char>>::empty());
    while i < parts.len()
        invariant
            i <= parts@.len(),
            parts_fold(texts(parts@).subrange(0, i as int)) == Some(texts(st@)),
        decreases parts.len() - i,
    {
        proof {
            assert(texts(parts@).subrange(0, i + 1).drop_last() =~= texts(parts@).subrange(0, i as int));
            assert(texts(parts@).subrange(0, i + 1).last() == parts@[i as int]@);
        }
        let c = chars_of(parts[i].as_str());
        let ghost before = texts(st@);
        if is_text(c.as_slice(), ".") || c.len() == 0 || is_text(c.as_slice(), "/") || is_text(
            c.as_slice(),
            "\\",
        ) {
        } else if is_text(c.as_slice(), "..") {
            if st.len() == 0 {
                proof {
                    lemma_parts_fold_fails(texts(parts@), i as int + 1);
                }
                return None;
            }
            st.pop();
            proof {
                assert(texts(st@) =~= before.drop_last());
            }
        } else {
            st.push(parts[i].clone());
            proof {
                assert(texts(st@) =~= before.push(parts@[i as int]@));
            }
        }
        i += 1;
    }
    assert(texts(parts@).subrange(0, i as int) =~= texts(parts@));
    if st.len() == 0 {
        None
    } else {
        Some(st)
    }
}

proof fn lemma_parts_fold_fails(parts: Seq<Seq<char>>, k: int)
    requires
        0 <= k <= parts.len(),
        parts_fold(parts.subrange(0, k)).is_none(),
    ensures
        parts_fold(parts).is_none(),
    decreases parts.len() - k,
{
    if k < parts.len() {
        assert(parts.subrange(0, k + 1).drop_last() =~= parts.subrange(0, k));
        lemma_parts_fold_fails(parts, k + 1);
    } else {
        assert(parts.subrange(0, k) =~= parts);
    }
}

/// The normal parts of a path text.
pub open spec fn path_parts_of(p: Seq<char>) -> Option<Seq<Seq<char>>> {
    normal_parts(split_segs(slash_map(p)))
}

/// Split a path into its normal parts.
pub fn split_path(path: &[char]) -> (r: Option<Vec<String>>)
    ensures
        match r {
            Some(v) => path_parts_of(path@) == Some(texts(v@)),
            None => path_parts_of(path@).is_none(),
        },
{
    let m = unify_slashes(path);
    let segs = split_on_slash(m.as_slice());
    let mut parts: Vec<String> = Vec::new();
    let mut i: usize = 0;
    while i < segs.len()
        invariant
            i <= segs@.len(),
            texts(parts@) == segs@.map_values(|v: Vec<char>| v@).subrange(0, i as int),
        decreases segs.len() - i,
    {
        let s = string_of(segs[i].as_slice());
        let ghost before = texts(parts@);
        parts.push(s);
        proof {
            let sv = segs@.map_values(|v: Vec<char>| v@);
            assert(texts(parts@) =~= before.push(segs@[i as int]@));
            assert(sv.subrange(0, i + 1) =~= sv.subrange(0, i as int).push(segs@[i as int]@));
        }
        i += 1;
    }
    assert(segs@.map_values(|v: Vec<char>| v@).subrange(0, i as int) =~= segs@.map_values(|v: Vec<char>| v@));
    normalize_path_parts(&parts)
}

/// Parts joined by `/`.
pub open spec fn join_parts(parts: Seq<Seq<char>>) -> Seq<char> {
    crate::url::join_segs(parts)
}

/// Join parts with `/`, after an optional leading `/`.
fn join_with_slash(parts: &Vec<String>, absolute: bool) -> (r: String)
    ensures
        r@ == (if absolute { "/"@ } else { Seq::<char>::empty() }) + join_parts(texts(parts@)),
{
    let mut out = String::new();
    if absolute {
        push_char(&mut out, '/');
    }
    let ghost prefix = out@;
    let mut j: usize = 0;
    while j < parts.len()
        invariant
            j <= parts@.len(),
            out@ == prefix + join_parts(texts(parts@).subrange(0, j as int)),
        decreases parts.len() - j,
    {
        let ghost before = out@;
        if j > 0 {
            push_char(&mut out, '/');
        }
        let ghost mid = out@;
        out = out.concat(parts[j].as_str());
        proof {
            reveal_strlit("/");
            let a = texts(parts@).subrange(0, j as int);
            let b = texts(parts@).subrange(0, j + 1);
            assert(b.drop_last() =~= a);
            assert(b.last() == parts@[j as int]@);
            if j > 0 {
                assert(out@ =~= prefix + (join_parts(a) + "/"@ + parts@[j as int]@));
            } else {
                assert(out@ =~= prefix + join_parts(b));
            }
        }
        j += 1;
    }
    proof {
        reveal_strlit("/");
        assert(texts(parts@).subrange(0, j as int) =~= texts(parts@));
        if absolute {
            assert(prefix =~= "/"@);
        } else {
            assert(prefix =~= Seq::<char>::empty());
        }
    }
    out
}

/// The normal form of a path: `None` for an empty path, and for a relative
/// path with no part left; `/` for an absolute one with no part left.
pub open spec fn normalize_spec(p: Seq<char>) -> Option<Seq<char>> {
    if p.len() == 0 {
        None
    } else {
        let absolute = p[0] == '/';
        let rest = if absolute { p.drop_first() } else { p };
        match path_parts_of(rest) {
            Some(parts) => Some((if absolute { "/"@ } else { Seq::empty() }) + join_parts(parts)),
            None => if absolute {
                Some("/"@)
            } else {
                None
            },
        }
    }
}

/// Normalize a path.
pub fn normalize(path: &str) -> (r: Option<String>)
    ensures
        match r {
            Some(s) => normalize_spec(path@) == Some(s@),
            None => normalize_spec(path@).is_none(),
        },
{
    let c = chars_of(path);
    if c.len() == 0 {
        return None;
    }
    let absolute = c[0] == '/';
    let rest = if absolute {
        crate::text::slice_of(c.as_slice(), 1, c.len())
    } else {
        crate::text::slice_of(c.as_slice(), 0, c.len())
    };
    proof {
        if absolute {
            assert(rest@ =~= path@.drop_first());
        } else {
            assert(rest@ =~= path@);
        }
    }
    match split_path(rest.as_slice()) {
        Some(parts) => Some(join_with_slash(&parts, absolute)),
        None => if absolute {
            let mut s = String::new();
            push_char(&mut s, '/');
            proof {
                reveal_strlit("/");
                assert(s@ =~= "/"@);
            }
            Some(s)
        } else {
            None
        },
    }
}

/// The parts of a path, after an optional leading `/`.
pub open spec fn parts_spec(p: Seq<char>) -> Option<Seq<Seq<char>>> {
    if p.len() == 0 {
        None
    } else {
        path_parts_of(if p[0] == '/' { p.drop_first() } else { p })
    }
}

/// The normal parts of a path.
pub fn parts(path: &str) -> (r: Option<Vec<String>>)
    ensures
        match r {
            Some(v) => parts_spec(path@) == Some(texts(v@)),
            None => parts_spec(path@).is_none(),
        },
{
    let c = chars_of(path);
    if c.len() == 0 {
        return None;
    }
    let rest = if c[0] == '/' {
        crate::text::slice_of(c.as_slice(), 1, c.len())
    } else {
        crate::text::slice_of(c.as_slice(), 0, c.len())
    };
    proof {
        if c@[0] == '/' {
            assert(rest@ =~= path@.drop_first());
        } else {
            assert(rest@ =~= path@);
        }
    }
    split_path(rest.as_slice())
}

/// The parent of a path: its parts but the last, when at least two.
pub open spec fn parent_spec(p: Seq<char>) -> Option<Seq<char>> {
    match parts_spec(p) {
        Some(ps) => if ps.len() > 1 {
            Some((if p[0] == '/' { "/"@ } else { Seq::empty() }) + join_parts(ps.drop_last()))
        } else {
            None
        },
        None => None,
    }
}

/// The parent of a path.
pub fn parent(path: &str) -> (r: Option<String>)
    ensures
        match r {
            Some(s) => parent_spec(path@) == Some(s@),
            None => parent_spec(path@).is_none(),
        },
{
    let c = chars_of(path);
    match parts(path) {
        Some(mut ps) => {
            if ps.len() > 1 {
                let ghost all = texts(ps@);
                ps.pop();
                proof {
                    assert(texts(ps@) =~= all.drop_last());
                }
                Some(join_with_slash(&ps, c[0] == '/'))
            } else {
                None
            }
        },
        None => None,
    }
}

/// The last part of a path; `/` for the root.
pub open spec fn file_name_spec(p: Seq<char>) -> Option<Seq<char>> {
    if p == "/"@ {
        Some("/"@)
    } else {
        match parts_spec(p) {
            Some(ps) => Some(ps.last()),
            None => None,
        }
    }
}

/// The last part of a path.
pub fn file_name(path: &str) -> (r: Option<String>)
    ensures
        match r {
            Some(s) => file_name_spec(path@) == Some(s@),
            None => file_name_spec(path@).is_none(),
        },
{
    let c = chars_of(path);
    if is_text(c.as_slice(), "/") {
        return Some(String::from_str("/"));
    }
    match parts(path) {
        Some(mut ps) => {
            let ghost all = texts(ps@);
            let last = ps.pop().unwrap();
            Some(last)
        },
        None => None,
    }
}

/// Whether a text is not empty, as a function value.
pub open spec fn nonempty_text() -> spec_fn(Seq<char>) -> bool {
    |s: Seq<char>| s.len() > 0
}

/// Join path parts: empty parts are dropped; a first part `/` or `\` makes
/// the result absolute; the rest is normalized.
pub open spec fn join_spec(parts: Seq<Seq<char>>) -> Option<Seq<char>> {
    let kept = parts.filter(nonempty_text());
    if kept.len() == 0 {
        None
    } else {
        let absolute = kept[0] == "/"@ || kept[0] == "\\"@;
        let rest = if absolute { kept.drop_first() } else { kept };
        match normal_parts(rest) {
            Some(ps) => Some((if absolute { "/"@ } else { Seq::empty() }) + join_parts(ps)),
            None => if absolute {
                Some("/"@)
            } else {
                None
            },
        }
    }
}

/// Join path parts.
pub fn join(parts: &Vec<String>) -> (r: Option<String>)
    ensures
        match r {
            Some(s) => join_spec(texts(parts@)) == Some(s@),
            None => join_spec(texts(parts@)).is_none(),
        },
{
    let mut kept: Vec<String> = Vec::new();
    let mut i: usize = 0;
    while i < parts.len()
        invariant
            i <= parts@.len(),
            texts(kept@) == texts(parts@).subrange(0, i as int).filter(nonempty_text()),
        decreases parts.len() - i,
    {
        proof {
            let a = texts(parts@).subrange(0, i as int);
            let b = texts(parts@).subrange(0, i + 1);
            assert(b =~= a.push(parts@[i as int]@));
            assert(b.drop_last() =~= a);
            assert(b.last() == parts@[i as int]@);
        }
        let ghost a = texts(parts@).subrange(0, i as int);
        let ghost b = texts(parts@).subrange(0, i + 1);
        if parts[i].unicode_len() > 0 {
            let ghost before = texts(kept@);
            kept.push(parts[i].clone());
            proof {
                assert(texts(kept@) =~= before.push(parts@[i as int]@));
                assert(nonempty_text()(parts@[i as int]@));
                assert(b.drop_last() =~= a);
                assert(b.len() > 0);
                reveal_with_fuel(Seq::filter, 2);
                assert(b.filter(nonempty_text()) == a.filter(nonempty_text()).push(parts@[i as int]@));
            }
        } else {
            proof {
                assert(!nonempty_text()(parts@[i as int]@));
                assert(b.drop_last() =~= a);
                assert(b.len() > 0);
                reveal_with_fuel(Seq::filter, 2);
                assert(b.filter(nonempty_text()) == a.filter(nonempty_text()));
            }
        }
        i += 1;
    }
    assert(texts(parts@).subrange(0, i as int) =~= texts(parts@));
    if kept.len() == 0 {
        return None;
    }
    let first = chars_of(kept[0].as_str());
    let absolute = is_text(first.as_slice(), "/") || is_text(first.as_slice(), "\\");
    let rest = if absolute {
        let ghost all = texts(kept@);
        kept.remove(0);
        proof {
            assert(texts(kept@) =~= all.drop_first());
        }
        kept
    } else {
        kept
    };
    match normalize_path_parts(&rest) {
        Some(ps) => Some(join_with_slash(&ps, absolute)),
        None => if absolute {
            let mut s = String::new();
            push_char(&mut s, '/');
            proof {
                reveal_strlit("/");
                assert(s@ =~= "/"@);
            }
            Some(s)
        } else {
            None
        },
    }
}

} // verus!
