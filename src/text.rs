use vstd::prelude::*;

verus! {

/// Relies on `String::push`: appends one character at the end.
#[verifier::external_body]
pub fn push_char(s: &mut String, c: char)
    ensures
        final(s)@ == old(s)@.push(c),
{
    s.push(c)
}

/// The characters of a string slice, in order.
pub fn chars_of(s: &str) -> (r: Vec<char>)
    ensures
        r@ == s@,
{
    let n = s.unicode_len();
    let mut v: Vec<char> = Vec::new();
    let mut i: usize = 0;
    while i < n
        invariant
            n == s@.len(),
            i <= n,
            v@ == s@.subrange(0, i as int),
        decreases n - i,
    {
        v.push(s.get_char(i));
        i += 1;
    }
    assert(v@ =~= s@);
    v
}

/// A string made of the given characters.
pub fn string_of(v: &[char]) -> (r: String)
    ensures
        r@ == v@,
{
    let mut s = String::new();
    let mut i: usize = 0;
    while i < v.len()
        invariant
            i <= v@.len(),
            s@ == v@.subrange(0, i as int),
        decreases v.len() - i,
    {
        push_char(&mut s, v[i]);
        i += 1;
    }
    assert(s@ =~= v@);
    s
}

/// Character-wise equality of two sequences.
pub fn same_chars(a: &[char], b: &[char]) -> (r: bool)
    ensures
        r == (a@ == b@),
{
    if a.len() != b.len() {
        return false;
    }
    let mut i: usize = 0;
    while i < a.len()
        invariant
            a@.len() == b@.len(),
            i <= a@.len(),
            forall|j: int| 0 <= j < i ==> a@[j] == b@[j],
        decreases a.len() - i,
    {
        if a[i] != b[i] {
            return false;
        }
        i += 1;
    }
    assert(a@ =~= b@);
    true
}

/// Whether the characters spell the given literal.
pub fn is_text(a: &[char], lit: &str) -> (r: bool)
    ensures
        r == (a@ == lit@),
{
    let b = chars_of(lit);
    same_chars(a, b.as_slice())
}

/// Whether `s` ends with `suffix`.
pub fn ends_with(s: &[char], suffix: &[char]) -> (r: bool)
    ensures
        r == (suffix@.len() <= s@.len() && s@.subrange(s@.len() - suffix@.len(), s@.len() as int)
            == suffix@),
{
    if suffix.len() > s.len() {
        return false;
    }
    let n = s.len();
    let off = n - suffix.len();
    let mut i: usize = 0;
    while i < suffix.len()
        invariant
            n == s@.len(),
            off + suffix@.len() == n,
            i <= suffix@.len(),
            forall|j: int| 0 <= j < i ==> s@[off + j] == suffix@[j],
        decreases suffix.len() - i,
    {
        if s[off + i] != suffix[i] {
            assert(s@.subrange(off as int, s@.len() as int)[i as int] == s@[off + i]);
            return false;
        }
        i += 1;
    }
    assert(s@.subrange(off as int, s@.len() as int) =~= suffix@);
    true
}

/// Whether `s` starts with `prefix`.
pub fn starts_with(s: &[char], prefix: &[char]) -> (r: bool)
    ensures
        r == (prefix@.len() <= s@.len() && s@.subrange(0, prefix@.len() as int) == prefix@),
{
    if prefix.len() > s.len() {
        return false;
    }
    let mut i: usize = 0;
    while i < prefix.len()
        invariant
            prefix@.len() <= s@.len(),
            i <= prefix@.len(),
            forall|j: int| 0 <= j < i ==> s@[j] == prefix@[j],
        decreases prefix.len() - i,
    {
        if s[i] != prefix[i] {
            assert(s@.subrange(0, prefix@.len() as int)[i as int] == s@[i as int]);
            return false;
        }
        i += 1;
    }
    assert(s@.subrange(0, prefix@.len() as int) =~= prefix@);
    true
}

/// The characters `v[from..to]` as a new vector.
pub fn slice_of(v: &[char], from: usize, to: usize) -> (r: Vec<char>)
    requires
        from <= to <= v@.len(),
    ensures
        r@ == v@.subrange(from as int, to as int),
{
    let mut out: Vec<char> = Vec::new();
    let mut i: usize = from;
    while i < to
        invariant
            from <= i <= to <= v@.len(),
            out@ == v@.subrange(from as int, i as int),
        decreases to - i,
    {
        out.push(v[i]);
        i += 1;
    }
    assert(out@ =~= v@.subrange(from as int, to as int));
    out
}

/// Whether `suffix` ends `s`.
pub open spec fn has_suffix(s: Seq<char>, suffix: Seq<char>) -> bool {
    suffix.len() <= s.len() && s.subrange(s.len() - suffix.len(), s.len() as int) == suffix
}

/// Whether `prefix` starts `s`.
pub open spec fn has_prefix(s: Seq<char>, prefix: Seq<char>) -> bool {
    prefix.len() <= s.len() && s.subrange(0, prefix.len() as int) == prefix
}

/// Whether `i` is the first position of `c` in `s`.
pub open spec fn is_first(s: Seq<char>, c: char, i: int) -> bool {
    0 <= i < s.len() && s[i] == c && forall|j: int| 0 <= j < i ==> s[j] != c
}

/// The first position of `c` in `s`, or -1.
pub open spec fn first_index(s: Seq<char>, c: char) -> int {
    if exists|i: int| is_first(s, c, i) {
        choose|i: int| is_first(s, c, i)
    } else {
        -1
    }
}

pub proof fn lemma_first_unique(s: Seq<char>, c: char, i: int)
    requires
        is_first(s, c, i),
    ensures
        first_index(s, c) == i,
{
    let k = first_index(s, c);
    assert(is_first(s, c, k));
    if k < i {
        assert(s[k] != c);
    } else if k > i {
        assert(s[i] != c);
    }
}

pub proof fn lemma_first_none(s: Seq<char>, c: char)
    requires
        forall|j: int| 0 <= j < s.len() ==> s[j] != c,
    ensures
        first_index(s, c) == -1,
{
}

/// The first position of `c` in `s`, if any.
pub fn find_char(s: &[char], c: char) -> (r: Option<usize>)
    ensures
        match r {
            Some(i) => is_first(s@, c, i as int) && first_index(s@, c) == i,
            None => first_index(s@, c) == -1 && forall|j: int| 0 <= j < s@.len() ==> s@[j] != c,
        },
{
    let mut i: usize = 0;
    while i < s.len()
        invariant
            i <= s@.len(),
            forall|j: int| 0 <= j < i ==> s@[j] != c,
        decreases s.len() - i,
    {
        if s[i] == c {
            proof {
                lemma_first_unique(s@, c, i as int);
            }
            return Some(i);
        }
        i += 1;
    }
    proof {
        lemma_first_none(s@, c);
    }
    None
}

/// Whether `s` ends with the literal.
pub fn ends_with_text(s: &[char], lit: &str) -> (r: bool)
    ensures
        r == has_suffix(s@, lit@),
{
    let b = chars_of(lit);
    ends_with(s, b.as_slice())
}

} // verus!
