use vstd::prelude::*;
use crate::text::{chars_of, is_text, push_char, string_of};

verus! {

/// Backslashes read as forward slashes.
pub open spec fn slash_map(s: Seq<char>) -> Seq<char> {
    s.map_values(|c: char| if c == '\\' { '/' } else { c })
}

/// The `/`-separated segments of a text, empty ones included.
pub open spec fn split_segs(s: Seq<char>) -> Seq<Seq<char>>
    decreases s.len(),
{
    if s.len() == 0 {
        seq![Seq::empty()]
    } else {
        let p = split_segs(s.drop_last());
        if s.last() == '/' {
            p.push(Seq::empty())
        } else {
            p.update(p.len() - 1, p.last().push(s.last()))
        }
    }
}

/// One folding step: empty and `.` segments vanish, `..` removes the segment
/// before it when at least one segment stays, anything else is kept.
pub open spec fn fold_step(st: Seq<Seq<char>>, seg: Seq<char>) -> Seq<Seq<char>> {
    if seg.len() == 0 || seg == "."@ {
        st
    } else if seg == ".."@ && st.len() >= 2 && st.last() != ".."@ {
        st.drop_last()
    } else {
        st.push(seg)
    }
}

/// Fold segments, left to right, onto `init`.
pub open spec fn fold_from(init: Seq<Seq<char>>, segs: Seq<Seq<char>>) -> Seq<Seq<char>>
    decreases segs.len(),
{
    if segs.len() == 0 {
        init
    } else {
        fold_step(fold_from(init, segs.drop_last()), segs.last())
    }
}

/// Segments joined by `/`.
pub open spec fn join_segs(st: Seq<Seq<char>>) -> Seq<char>
    decreases st.len(),
{
    if st.len() == 0 {
        Seq::empty()
    } else if st.len() == 1 {
        st[0]
    } else {
        join_segs(st.drop_last()) + "/"@ + st.last()
    }
}

/// The normal form of the part of a URL after its scheme: separators
/// unified, `.` and empty segments dropped, `x/..` folded; a leading and a
/// trailing `/` are kept.
pub open spec fn normalize_path(rest: Seq<char>) -> Seq<char> {
    let m = slash_map(rest);
    let lead = m.len() > 0 && m[0] == '/';
    let trail = m.len() > 0 && m.last() == '/';
    let st = fold_from(Seq::empty(), split_segs(m));
    (if lead {
        "/"@
    } else {
        Seq::empty()
    }) + join_segs(st) + (if trail && st.len() > 0 {
        "/"@
    } else {
        Seq::empty()
    })
}

/// Whether `://` starts at `j`.
pub open spec fn is_scheme_sep(u: Seq<char>, j: int) -> bool {
    0 <= j && j + 3 <= u.len() && u[j] == ':' && u[j + 1] == '/' && u[j + 2] == '/'
}

/// Whether `j` is the first place where `://` starts.
pub open spec fn is_first_scheme_sep(u: Seq<char>, j: int) -> bool {
    is_scheme_sep(u, j) && forall|k: int| 0 <= k < j ==> !is_scheme_sep(u, k)
}

/// The first place where `://` starts, or -1.
pub open spec fn scheme_end(u: Seq<char>) -> int {
    if exists|j: int| is_first_scheme_sep(u, j) {
        choose|j: int| is_first_scheme_sep(u, j)
    } else {
        -1
    }
}

/// The normal form of a URL: the scheme, if any, is kept as it is and the
/// rest is normalized.
pub open spec fn normalize_url_spec(u: Seq<char>) -> Seq<char> {
    let i = scheme_end(u);
    if i >= 0 {
        u.subrange(0, i) + "://"@ + normalize_path(u.subrange(i + 3, u.len() as int))
    } else {
        normalize_path(u)
    }
}

proof fn lemma_first_scheme_sep_unique(u: Seq<char>, j: int)
    requires
        is_first_scheme_sep(u, j),
    ensures
        scheme_end(u) == j,
{
    let k = scheme_end(u);
    assert(is_first_scheme_sep(u, k));
    if k < j {
        assert(!is_scheme_sep(u, k));
    } else if k > j {
        assert(!is_scheme_sep(u, j));
    }
}

/// Where the scheme separator starts, if the URL has one.
fn find_scheme_sep(u: &[char]) -> (r: Option<usize>)
    ensures
        match r {
            Some(i) => scheme_end(u@) == i && i + 3 <= u@.len(),
            None => scheme_end(u@) == -1,
        },
{
    let mut j: usize = 0;
    while j < u.len() && u.len() - j >= 3
        invariant
            j <= u@.len(),
            forall|k: int| 0 <= k < j ==> !is_scheme_sep(u@, k),
        decreases u.len() - j,
    {
        if u[j] == ':' && u[j + 1] == '/' && u[j + 2] == '/' {
            proof {
                lemma_first_scheme_sep_unique(u@, j as int);
            }
            return Some(j);
        }
        j += 1;
    }
    assert forall|k: int| 0 <= k < u@.len() implies !is_scheme_sep(u@, k) by {
        if k >= j {
            assert(k + 3 > u@.len());
        }
    }
    assert(!exists|k: int| is_first_scheme_sep(u@, k));
    None
}

/// Normalize the part of a URL after its scheme.
fn normalize_rest(rest: &[char]) -> (r: Vec<char>)
    ensures
        r@ == normalize_path(rest@),
{
    let mut m: Vec<char> = Vec::new();
    let mut i: usize = 0;
    while i < rest.len()
        invariant
            i <= rest@.len(),
            m@ == slash_map(rest@.subrange(0, i as int)),
        decreases rest.len() - i,
    {
        let c = if rest[i] == '\\' {
            '/'
        } else {
            rest[i]
        };
        m.push(c);
        proof {
            assert(slash_map(rest@.subrange(0, i + 1)) =~= slash_map(rest@.subrange(0, i as int)).push(c));
        }
        i += 1;
    }
    assert(rest@.subrange(0, rest@.len() as int) =~= rest@);
    let lead = m.len() > 0 && m[0] == '/';
    let trail = m.len() > 0 && m[m.len() - 1] == '/';
    // Split and fold in one pass: `cur` is the segment being read, `st`
    // the folded segments before it.
    let mut st: Vec<Vec<char>> = Vec::new();
    let mut cur: Vec<char> = Vec::new();
    let mut k: usize = 0;
    while k < m.len()
        invariant
            k <= m@.len(),
            split_segs(m@.subrange(0, k as int)).last() == cur@,
            fold_from(Seq::empty(), split_segs(m@.subrange(0, k as int)).drop_last()) == st@.map_values(
                |v: Vec<char>| v@,
            ),
        decreases m.len() - k,
    {
        let c = m[k];
        let ghost pre = m@.subrange(0, k as int);
        proof {
            assert(m@.subrange(0, k + 1).drop_last() =~= pre);
            lemma_split_len(pre);
        }
        if c == '/' {
            let ghost old_st = st@.map_values(|v: Vec<char>| v@);
            let ghost seg = cur@;
            fold_push(&mut st, cur);
            proof {
                let p = split_segs(pre);
                assert(split_segs(m@.subrange(0, k + 1)) == p.push(Seq::empty()));
                assert(p.push(Seq::<char>::empty()).drop_last() =~= p);
                assert(p =~= p.drop_last().push(p.last()));
            }
            cur = Vec::new();
        } else {
            cur.push(c);
            proof {
                let p = split_segs(pre);
                let q = split_segs(m@.subrange(0, k + 1));
                assert(q == p.update(p.len() - 1, p.last().push(c)));
                assert(q.drop_last() =~= p.drop_last());
            }
        }
        k += 1;
    }
    proof {
        assert(m@.subrange(0, m@.len() as int) =~= m@);
        let p = split_segs(m@);
        lemma_split_len(m@);
        assert(p =~= p.drop_last().push(p.last()));
    }
    fold_push(&mut st, cur);
    let mut out: Vec<char> = Vec::new();
    if lead {
        out.push('/');
    }
    let ghost prefix = out@;
    let mut j: usize = 0;
    while j < st.len()
        invariant
            j <= st@.len(),
            out@ == prefix + join_segs(st@.map_values(|v: Vec<char>| v@).subrange(0, j as int)),
        decreases st.len() - j,
    {
        let ghost sv = st@.map_values(|v: Vec<char>| v@);
        let ghost before = out@;
        if j > 0 {
            out.push('/');
        }
        let seg = &st[j];
        let mut t: usize = 0;
        while t < seg.len()
            invariant
                t <= seg@.len(),
                j > 0 ==> out@ == before.push('/') + seg@.subrange(0, t as int),
                j == 0 ==> out@ == before + seg@.subrange(0, t as int),
            decreases seg.len() - t,
        {
            out.push(seg[t]);
            proof {
                assert(seg@.subrange(0, t + 1) =~= seg@.subrange(0, t as int).push(seg@[t as int]));
                if j > 0 {
                    assert(before.push('/') + seg@.subrange(0, t + 1) =~= (before.push('/')
                        + seg@.subrange(0, t as int)).push(seg@[t as int]));
                } else {
                    assert(before + seg@.subrange(0, t + 1) =~= (before + seg@.subrange(0, t as int)).push(
                        seg@[t as int],
                    ));
                }
            }
            t += 1;
        }
        proof {
            assert(seg@.subrange(0, seg@.len() as int) =~= seg@);
            let a = sv.subrange(0, j as int);
            let b = sv.subrange(0, j + 1);
            assert(b.drop_last() =~= a);
            assert(b.last() == seg@);
            reveal_strlit("/");
            if j > 0 {
                assert(join_segs(b) == join_segs(a) + "/"@ + seg@);
                assert(out@ =~= prefix + join_segs(b));
            } else {
                assert(join_segs(b) == seg@);
                assert(out@ =~= prefix + join_segs(b));
            }
        }
        j += 1;
    }
    proof {
        let sv = st@.map_values(|v: Vec<char>| v@);
        assert(sv.subrange(0, st@.len() as int) =~= sv);
    }
    if trail && st.len() > 0 {
        out.push('/');
    }
    proof {
        reveal_strlit("/");
        let sv = st@.map_values(|v: Vec<char>| v@);
        if trail && st@.len() > 0 {
            if lead {
                assert(out@ =~= "/"@ + join_segs(sv) + "/"@);
            } else {
                assert(out@ =~= Seq::<char>::empty() + join_segs(sv) + "/"@);
            }
        } else {
            if lead {
                assert(out@ =~= "/"@ + join_segs(sv) + Seq::<char>::empty());
            } else {
                assert(out@ =~= Seq::<char>::empty() + join_segs(sv) + Seq::<char>::empty());
            }
        }
    }
    out
}

proof fn lemma_split_len(s: Seq<char>)
    ensures
        split_segs(s).len() >= 1,
    decreases s.len(),
{
    if s.len() > 0 {
        lemma_split_len(s.drop_last());
    }
}

/// Apply one folding step to the folded segments.
fn fold_push(st: &mut Vec<Vec<char>>, seg: Vec<char>)
    ensures
        final(st)@.map_values(|v: Vec<char>| v@) == fold_step(
            old(st)@.map_values(|v: Vec<char>| v@),
            seg@,
        ),
{
    let ghost sv = old(st)@.map_values(|v: Vec<char>| v@);
    if seg.len() == 0 || is_text(seg.as_slice(), ".") {
        return;
    }
    if is_text(seg.as_slice(), "..") && st.len() >= 2 && !is_text(st[st.len() - 1].as_slice(), "..") {
        st.pop();
        proof {
            assert(final(st)@.map_values(|v: Vec<char>| v@) =~= sv.drop_last());
        }
        return;
    }
    let ghost sg = seg@;
    st.push(seg);
    proof {
        assert(final(st)@.map_values(|v: Vec<char>| v@) =~= sv.push(sg));
    }
}

/// Normalize a URL: keep the scheme, unify separators, drop `.` and empty
/// segments, fold `x/..` where a segment stays.
pub fn normalize_url(url: &str) -> (r: String)
    ensures
        r@ == normalize_url_spec(url@),
{
    let u = chars_of(url);
    let n = u.len();
    match find_scheme_sep(u.as_slice()) {
        Some(i) => {
            assert(i + 3 <= n);
            let mut head: Vec<char> = Vec::new();
            let mut k: usize = 0;
            while k < i
                invariant
                    k <= i,
                    i + 3 <= u@.len(),
                    head@ == u@.subrange(0, k as int),
                decreases i - k,
            {
                head.push(u[k]);
                proof {
                    assert(u@.subrange(0, k + 1) =~= u@.subrange(0, k as int).push(u@[k as int]));
                }
                k += 1;
            }
            let mut rest: Vec<char> = Vec::new();
            let mut k2: usize = i + 3;
            while k2 < u.len()
                invariant
                    i + 3 <= k2 <= u@.len(),
                    rest@ == u@.subrange(i + 3, k2 as int),
                decreases u.len() - k2,
            {
                rest.push(u[k2]);
                proof {
                    assert(u@.subrange(i + 3, k2 + 1) =~= u@.subrange(i + 3, k2 as int).push(
                        u@[k2 as int],
                    ));
                }
                k2 += 1;
            }
            let tail = normalize_rest(rest.as_slice());
            let mut s = string_of(head.as_slice());
            push_char(&mut s, ':');
            push_char(&mut s, '/');
            push_char(&mut s, '/');
            let t = string_of(tail.as_slice());
            let r = s.concat(t.as_str());
            proof {
                reveal_strlit("://");
                assert(r@ =~= u@.subrange(0, i as int) + "://"@ + normalize_path(
                    u@.subrange(i + 3, u@.len() as int),
                ));
            }
            r
        },
        None => {
            let tail = normalize_rest(u.as_slice());
            string_of(tail.as_slice())
        },
    }
}

/// Whether a segment has no separator in it.
pub open spec fn plain_seg(seg: Seq<char>) -> bool {
    forall|k: int| 0 <= k < seg.len() ==> seg[k] != '/' && seg[k] != '\\'
}

/// Whether folded segments are in normal form: plain, not empty, not `.`,
/// and a `..` only where folding would have kept it.
pub open spec fn normal_stack(st: Seq<Seq<char>>) -> bool {
    forall|j: int| 0 <= j < st.len() ==> {
        &&& plain_seg(#[trigger] st[j])
        &&& st[j].len() > 0
        &&& st[j] != "."@
        &&& (st[j] == ".."@ ==> j < 2 || st[j - 1] == ".."@)
    }
}

proof fn lemma_split_concat(a: Seq<char>, b: Seq<char>)
    ensures
        split_segs(a + "/"@ + b) == split_segs(a) + split_segs(b),
    decreases b.len(),
{
    reveal_strlit("/");
    lemma_split_len(b);
    if b.len() == 0 {
        assert(a + "/"@ + b =~= a.push('/'));
        assert((a + "/"@ + b).drop_last() =~= a);
        assert(split_segs(b) =~= seq![Seq::<char>::empty()]);
        assert(split_segs(a).push(Seq::empty()) =~= split_segs(a) + seq![Seq::<char>::empty()]);
    } else {
        let b2 = b.drop_last();
        let c = b.last();
        lemma_split_concat(a, b2);
        lemma_split_len(b2);
        assert((a + "/"@ + b).drop_last() =~= a + "/"@ + b2);
        assert((a + "/"@ + b).last() == c);
        let p = split_segs(a) + split_segs(b2);
        if c == '/' {
            assert(p.push(Seq::empty()) =~= split_segs(a) + split_segs(b2).push(Seq::empty()));
        } else {
            let q = split_segs(b2);
            assert(p.update(p.len() - 1, p.last().push(c)) =~= split_segs(a) + q.update(
                q.len() - 1,
                q.last().push(c),
            ));
        }
    }
}

proof fn lemma_split_plain(s: Seq<char>)
    requires
        forall|k: int| 0 <= k < s.len() ==> s[k] != '/',
    ensures
        split_segs(s) == seq![s],
    decreases s.len(),
{
    if s.len() == 0 {
        assert(s =~= Seq::<char>::empty());
        assert(split_segs(s) =~= seq![s]);
    } else {
        lemma_split_plain(s.drop_last());
        assert(s.drop_last().push(s.last()) =~= s);
        assert(s[s.len() - 1] != '/');
        assert(seq![s.drop_last()].update(0, s.drop_last().push(s.last())) =~= seq![s]);
    }
}

proof fn lemma_split_join(st: Seq<Seq<char>>)
    requires
        st.len() >= 1,
        forall|j: int| 0 <= j < st.len() ==> plain_seg(#[trigger] st[j]),
    ensures
        split_segs(join_segs(st)) == st,
    decreases st.len(),
{
    if st.len() == 1 {
        assert(plain_seg(st[0]));
        lemma_split_plain(st[0]);
        assert(seq![st[0]] =~= st);
    } else {
        let d = st.drop_last();
        assert forall|j: int| 0 <= j < d.len() implies plain_seg(#[trigger] d[j]) by {
            assert(d[j] == st[j]);
        }
        lemma_split_join(d);
        lemma_split_concat(join_segs(d), st.last());
        assert(plain_seg(st[st.len() - 1]));
        lemma_split_plain(st.last());
        assert(d + seq![st.last()] =~= st);
    }
}

proof fn lemma_fold_concat(init: Seq<Seq<char>>, a: Seq<Seq<char>>, b: Seq<Seq<char>>)
    ensures
        fold_from(init, a + b) == fold_from(fold_from(init, a), b),
    decreases b.len(),
{
    if b.len() == 0 {
        assert(a + b =~= a);
    } else {
        lemma_fold_concat(init, a, b.drop_last());
        assert((a + b).drop_last() =~= a + b.drop_last());
        assert((a + b).last() == b.last());
    }
}

proof fn lemma_fold_normal_fixed(st: Seq<Seq<char>>)
    requires
        normal_stack(st),
    ensures
        fold_from(Seq::empty(), st) == st,
    decreases st.len(),
{
    if st.len() > 0 {
        let d = st.drop_last();
        assert(normal_stack(d)) by {
            assert forall|j: int| 0 <= j < d.len() implies {
                &&& plain_seg(#[trigger] d[j])
                &&& d[j].len() > 0
                &&& d[j] != "."@
                &&& (d[j] == ".."@ ==> j < 2 || d[j - 1] == ".."@)
            } by {
                assert(d[j] == st[j]);
                if j >= 1 {
                    assert(d[j - 1] == st[j - 1]);
                }
            }
        }
        lemma_fold_normal_fixed(d);
        let j = st.len() - 1;
        assert(plain_seg(st[j]));
        if st[j] == ".."@ {
            if j >= 2 {
                assert(d.last() == st[j - 1]);
            }
        }
        assert(d.push(st.last()) =~= st);
    }
}

proof fn lemma_fold_normal(init: Seq<Seq<char>>, segs: Seq<Seq<char>>)
    requires
        normal_stack(init),
        forall|j: int| 0 <= j < segs.len() ==> plain_seg(#[trigger] segs[j]),
    ensures
        normal_stack(fold_from(init, segs)),
    decreases segs.len(),
{
    if segs.len() > 0 {
        let d = segs.drop_last();
        assert forall|j: int| 0 <= j < d.len() implies plain_seg(#[trigger] d[j]) by {
            assert(d[j] == segs[j]);
        }
        lemma_fold_normal(init, d);
        let st = fold_from(init, d);
        let seg = segs.last();
        assert(plain_seg(segs[segs.len() - 1]));
        let r = fold_step(st, seg);
        if seg.len() == 0 || seg == "."@ {
        } else if seg == ".."@ && st.len() >= 2 && st.last() != ".."@ {
            assert forall|j: int| 0 <= j < r.len() implies {
                &&& plain_seg(#[trigger] r[j])
                &&& r[j].len() > 0
                &&& r[j] != "."@
                &&& (r[j] == ".."@ ==> j < 2 || r[j - 1] == ".."@)
            } by {
                assert(r[j] == st[j]);
                if j >= 1 {
                    assert(r[j - 1] == st[j - 1]);
                }
            }
        } else {
            assert forall|j: int| 0 <= j < r.len() implies {
                &&& plain_seg(#[trigger] r[j])
                &&& r[j].len() > 0
                &&& r[j] != "."@
                &&& (r[j] == ".."@ ==> j < 2 || r[j - 1] == ".."@)
            } by {
                if j < st.len() {
                    assert(r[j] == st[j]);
                    if j >= 1 {
                        assert(r[j - 1] == st[j - 1]);
                    }
                } else {
                    assert(r[j] == seg);
                    if j >= 1 {
                        assert(r[j - 1] == st.last());
                    }
                }
            }
        }
    }
}

proof fn lemma_split_segs_plain(m: Seq<char>)
    requires
        forall|k: int| 0 <= k < m.len() ==> m[k] != '\\',
    ensures
        forall|j: int| 0 <= j < split_segs(m).len() ==> plain_seg(#[trigger] split_segs(m)[j]),
    decreases m.len(),
{
    if m.len() > 0 {
        let d = m.drop_last();
        lemma_split_segs_plain(d);
        lemma_split_len(d);
        let p = split_segs(d);
        if m.last() == '/' {
            assert forall|j: int| 0 <= j < split_segs(m).len() implies plain_seg(#[trigger] split_segs(m)[j]) by {
                if j < p.len() {
                    assert(split_segs(m)[j] == p[j]);
                }
            }
        } else {
            assert(m[m.len() - 1] != '\\');
            assert forall|j: int| 0 <= j < split_segs(m).len() implies plain_seg(#[trigger] split_segs(m)[j]) by {
                if j < p.len() - 1 {
                    assert(split_segs(m)[j] == p[j]);
                } else {
                    assert(plain_seg(p[p.len() - 1]));
                    assert(split_segs(m)[j] == p.last().push(m.last()));
                }
            }
        }
    }
}

/// Whether no two separators follow each other.
pub open spec fn no_double_slash(s: Seq<char>) -> bool {
    forall|k: int| 0 <= k && k + 1 < s.len() ==> !(#[trigger] s[k] == '/' && s[k + 1] == '/')
}

proof fn lemma_join_ends(st: Seq<Seq<char>>)
    requires
        st.len() >= 1,
        forall|j: int| 0 <= j < st.len() ==> plain_seg(#[trigger] st[j]) && st[j].len() > 0,
    ensures
        join_segs(st).len() > 0,
        join_segs(st)[0] != '/',
        join_segs(st).last() != '/',
        forall|k: int| 0 <= k < join_segs(st).len() ==> join_segs(st)[k] != '\\',
        no_double_slash(join_segs(st)),
    decreases st.len(),
{
    reveal_strlit("/");
    assert(plain_seg(st[0]) && st[0].len() > 0);
    if st.len() == 1 {
    } else {
        let d = st.drop_last();
        assert forall|j: int| 0 <= j < d.len() implies plain_seg(#[trigger] d[j]) && d[j].len() > 0 by {
            assert(d[j] == st[j]);
        }
        lemma_join_ends(d);
        let l = st.last();
        assert(plain_seg(st[st.len() - 1]) && st[st.len() - 1].len() > 0);
        let jd = join_segs(d);
        let j = join_segs(st);
        assert(j == jd + "/"@ + l);
        assert(j[0] == jd[0]);
        assert(j.last() == l.last());
        assert forall|k: int| 0 <= k < j.len() implies j[k] != '\\' by {
            if k < jd.len() {
                assert(j[k] == jd[k]);
            } else if k > jd.len() {
                assert(j[k] == l[k - jd.len() - 1]);
            }
        }
        assert forall|k: int| 0 <= k && k + 1 < j.len() implies !(#[trigger] j[k] == '/' && j[k + 1] == '/') by {
            if k + 1 < jd.len() {
                assert(j[k] == jd[k] && j[k + 1] == jd[k + 1]);
            } else if k + 1 == jd.len() {
                assert(j[k] == jd.last());
            } else if k == jd.len() {
                assert(j[k + 1] == l[0]);
            } else {
                assert(j[k] == l[k - jd.len() - 1]);
            }
        }
    }
}

/// Facts about a normalized path: its separators, its ends, and that
/// normalizing it again changes nothing.
proof fn lemma_normalize_path_idempotent(rest: Seq<char>)
    ensures
        normalize_path(normalize_path(rest)) == normalize_path(rest),
        no_double_slash(normalize_path(rest)),
{
    reveal_strlit("/");
    let m = slash_map(rest);
    let lead = m.len() > 0 && m[0] == '/';
    let trail = m.len() > 0 && m.last() == '/';
    assert forall|k: int| 0 <= k < m.len() implies m[k] != '\\' by {}
    lemma_split_segs_plain(m);
    lemma_fold_normal(Seq::empty(), split_segs(m));
    let st = fold_from(Seq::empty(), split_segs(m));
    let out = normalize_path(rest);
    let lp: Seq<char> = if lead { "/"@ } else { Seq::empty() };
    let tp: Seq<char> = if trail && st.len() > 0 { "/"@ } else { Seq::empty() };
    assert(out == lp + join_segs(st) + tp);
    if st.len() == 0 {
        assert(join_segs(st) =~= Seq::<char>::empty());
        if lead {
            assert(out =~= "/"@);
            assert(slash_map(out) =~= out);
            assert(out =~= Seq::<char>::empty() + "/"@ + Seq::<char>::empty());
            lemma_split_concat(Seq::empty(), Seq::empty());
            assert(split_segs(Seq::<char>::empty()) =~= seq![Seq::<char>::empty()]);
            assert(split_segs(out) =~= seq![Seq::<char>::empty(), Seq::<char>::empty()]);
            reveal_with_fuel(fold_from, 3);
            assert(fold_from(Seq::empty(), split_segs(out)) =~= Seq::<Seq<char>>::empty());
            assert(normalize_path(out) =~= "/"@);
        } else {
            assert(out =~= Seq::<char>::empty());
            assert(slash_map(out) =~= out);
            assert(split_segs(out) =~= seq![Seq::<char>::empty()]);
            reveal_with_fuel(fold_from, 2);
            assert(fold_from(Seq::empty(), split_segs(out)) =~= Seq::<Seq<char>>::empty());
            assert(normalize_path(out) =~= Seq::<char>::empty());
        }
    } else {
        assert forall|j: int| 0 <= j < st.len() implies plain_seg(#[trigger] st[j]) && st[j].len() > 0 by {
            assert(normal_stack(st));
        }
        lemma_join_ends(st);
        let js = join_segs(st);
        lemma_split_join(st);
        assert forall|k: int| 0 <= k < out.len() implies out[k] != '\\' by {
            if k < lp.len() {
            } else if k < lp.len() + js.len() {
                assert(out[k] == js[k - lp.len()]);
            } else {
            }
        }
        assert(slash_map(out) =~= out);
        let lead2 = out.len() > 0 && out[0] == '/';
        let trail2 = out.len() > 0 && out.last() == '/';
        assert(lead2 == lead) by {
            if !lead {
                assert(out[0] == js[0]);
            }
        }
        assert(trail2 == (trail && st.len() > 0)) by {
            if !(trail && st.len() > 0) {
                assert(out.last() == js.last());
            }
        }
        // split(js + tp)
        let mid = js + tp;
        assert(split_segs(mid) == if tp.len() > 0 { st + seq![Seq::<char>::empty()] } else { st }) by {
            if tp.len() > 0 {
                assert(mid =~= js + "/"@ + Seq::<char>::empty());
                lemma_split_concat(js, Seq::empty());
                assert(split_segs(Seq::<char>::empty()) =~= seq![Seq::<char>::empty()]);
            } else {
                assert(mid =~= js);
            }
        }
        assert(split_segs(out) == if lead { seq![Seq::<char>::empty()] + split_segs(mid) } else { split_segs(mid) }) by {
            if lead {
                assert(out =~= Seq::<char>::empty() + "/"@ + mid);
                lemma_split_concat(Seq::empty(), mid);
                assert(split_segs(Seq::<char>::empty()) =~= seq![Seq::<char>::empty()]);
            } else {
                assert(out =~= mid);
            }
        }
        let e: Seq<Seq<char>> = seq![Seq::<char>::empty()];
        assert(fold_from(Seq::empty(), e) == Seq::<Seq<char>>::empty()) by {
            reveal_with_fuel(fold_from, 2);
            assert(e.drop_last() =~= Seq::<Seq<char>>::empty());
        }
        assert(fold_from(st, e) == st) by {
            reveal_with_fuel(fold_from, 2);
            assert(e.drop_last() =~= Seq::<Seq<char>>::empty());
        }
        lemma_fold_normal_fixed(st);
        let s2 = split_segs(out);
        let st2 = fold_from(Seq::empty(), s2);
        assert(st2 == st) by {
            if lead {
                if tp.len() > 0 {
                    assert(s2 =~= e + (st + e));
                    lemma_fold_concat(Seq::empty(), e, st + e);
                    lemma_fold_concat(Seq::empty(), st, e);
                } else {
                    assert(s2 =~= e + st);
                    lemma_fold_concat(Seq::empty(), e, st);
                }
            } else {
                if tp.len() > 0 {
                    assert(s2 =~= st + e);
                    lemma_fold_concat(Seq::empty(), st, e);
                } else {
                    assert(s2 =~= st);
                }
            }
        }
        assert(normalize_path(out) =~= out);
        assert forall|k: int| 0 <= k && k + 1 < out.len() implies !(#[trigger] out[k] == '/' && out[k + 1] == '/') by {
            if lead && k == 0 {
                assert(out[1] == js[0]);
            } else if k + 1 < lp.len() + js.len() && k >= lp.len() {
                assert(out[k] == js[k - lp.len()]);
                assert(out[k + 1] == js[k + 1 - lp.len()]);
            } else if k + 1 == lp.len() + js.len() {
                assert(out[k] == js.last());
            }
        }
    }
}

/// Normalizing a normalized URL changes nothing.
pub proof fn lemma_normalize_url_idempotent(u: Seq<char>)
    ensures
        normalize_url_spec(normalize_url_spec(u)) == normalize_url_spec(u),
{
    reveal_strlit("://");
    let i = scheme_end(u);
    let n = normalize_url_spec(u);
    if i >= 0 {
        assert(is_first_scheme_sep(u, i)) by {
            assert(exists|j: int| is_first_scheme_sep(u, j));
        }
        let head = u.subrange(0, i);
        let rest = u.subrange(i + 3, u.len() as int);
        let out = normalize_path(rest);
        assert(n == head + "://"@ + out);
        assert forall|k: int| 0 <= k < i + 3 implies n[k] == u[k] by {
            if k < i {
                assert(n[k] == head[k]);
            } else {
                assert(n[k] == "://"@[k - i]);
            }
        }
        assert(is_first_scheme_sep(n, i)) by {
            assert forall|k: int| 0 <= k < i implies !is_scheme_sep(n, k) by {
                assert(!is_scheme_sep(u, k));
                if is_scheme_sep(n, k) {
                    assert(n[k] == u[k] && n[k + 1] == u[k + 1] && n[k + 2] == u[k + 2]);
                }
            }
        }
        lemma_first_scheme_sep_unique(n, i);
        assert(n.subrange(0, i) =~= head);
        assert(n.subrange(i + 3, n.len() as int) =~= out);
        lemma_normalize_path_idempotent(rest);
    } else {
        let out = normalize_path(u);
        assert(n == out);
        lemma_normalize_path_idempotent(u);
        assert(!exists|j: int| is_first_scheme_sep(out, j)) by {
            if exists|j: int| is_first_scheme_sep(out, j) {
                let j = choose|j: int| is_first_scheme_sep(out, j);
                assert(out[j + 1] == '/' && out[j + 2] == '/');
            }
        }
    }
}

} // verus!
