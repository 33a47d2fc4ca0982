use vstd::prelude::*;

verus! {

/// A value of a tabular text document, as the lock file and the package
/// manifest are written.
#[derive(Debug)]
pub enum Value {
    Integer(i64),
    String(String),
    Array(Vec<Value>),
    Table(Vec<(String, Value)>),
    /// Any other kind of value (boolean, float, date); no field here takes one.
    Other,
}

/// The value under `key` in a table's entries, the first one if the key is
/// repeated.
pub open spec fn table_get(t: Seq<(String, Value)>, key: Seq<char>) -> Option<Value>
    decreases t.len(),
{
    if t.len() == 0 {
        None
    } else if t[0].0@ == key {
        Some(t[0].1)
    } else {
        table_get(t.drop_first(), key)
    }
}

pub open spec fn get_table(t: Seq<(String, Value)>, key: Seq<char>) -> Option<Seq<(String, Value)>> {
    match table_get(t, key) {
        Some(Value::Table(e)) => Some(e@),
        _ => None,
    }
}

pub open spec fn get_array(t: Seq<(String, Value)>, key: Seq<char>) -> Option<Seq<Value>> {
    match table_get(t, key) {
        Some(Value::Array(e)) => Some(e@),
        _ => None,
    }
}

pub open spec fn get_int(t: Seq<(String, Value)>, key: Seq<char>) -> Option<i64> {
    match table_get(t, key) {
        Some(Value::Integer(i)) => Some(i),
        _ => None,
    }
}

pub open spec fn get_str(t: Seq<(String, Value)>, key: Seq<char>) -> Option<Seq<char>> {
    match table_get(t, key) {
        Some(Value::String(s)) => Some(s@),
        _ => None,
    }
}

/// Collect the results of `f` over `s` in order, stopping at the first error.
pub open spec fn collect_all<A, M, F>(s: Seq<A>, f: spec_fn(A) -> Result<M, F>) -> Result<
    Seq<M>,
    F,
>
    decreases s.len(),
{
    if s.len() == 0 {
        Ok(Seq::empty())
    } else {
        match collect_all(s.drop_last(), f) {
            Err(e) => Err(e),
            Ok(v) => match f(s.last()) {
                Ok(m) => Ok(v.push(m)),
                Err(e) => Err(e),
            },
        }
    }
}

/// Once a prefix has failed, every longer prefix fails the same way.
pub proof fn lemma_collect_err_extends<A, M, F>(
    s: Seq<A>,
    f: spec_fn(A) -> Result<M, F>,
    k: int,
)
    requires
        0 <= k <= s.len(),
        collect_all(s.subrange(0, k), f) is Err,
    ensures
        collect_all(s, f) == collect_all(s.subrange(0, k), f),
    decreases s.len() - k,
{
    if k < s.len() {
        let p = s.subrange(0, k + 1);
        assert(p.drop_last() =~= s.subrange(0, k));
        lemma_collect_err_extends(s, f, k + 1);
    } else {
        assert(s.subrange(0, k) =~= s);
    }
}

/// The prefix of length `k + 1` extends the prefix of length `k` by one item.
pub proof fn lemma_collect_step<A, M, F>(s: Seq<A>, f: spec_fn(A) -> Result<M, F>, k: int)
    requires
        0 <= k < s.len(),
    ensures
        collect_all(s.subrange(0, k + 1), f) == match collect_all(s.subrange(0, k), f) {
            Err(e) => Err(e),
            Ok(v) => match f(s[k]) {
                Ok(m) => Ok(v.push(m)),
                Err(e) => Err(e),
            },
        },
{
    assert(s.subrange(0, k + 1).drop_last() =~= s.subrange(0, k));
}

/// When every item succeeds, the collection holds every result in order.
pub proof fn lemma_collect_all_ok<A, M, F>(s: Seq<A>, f: spec_fn(A) -> Result<M, F>, ms: Seq<M>)
    requires
        s.len() == ms.len(),
        forall|i: int| 0 <= i < s.len() ==> f(s[i]) == Ok::<M, F>(ms[i]),
    ensures
        collect_all(s, f) == Ok::<Seq<M>, F>(ms),
    decreases s.len(),
{
    if s.len() > 0 {
        assert forall|i: int| 0 <= i < s.drop_last().len() implies f(s.drop_last()[i]) == Ok::<
            M,
            F,
        >(ms.drop_last()[i]) by {
            assert(s.drop_last()[i] == s[i]);
        }
        lemma_collect_all_ok(s.drop_last(), f, ms.drop_last());
        assert(f(s[s.len() - 1]) == Ok::<M, F>(ms[ms.len() - 1]));
        assert(ms.drop_last().push(ms.last()) =~= ms);
    } else {
        assert(ms =~= Seq::<M>::empty());
    }
}

/// Looking a key up after appending an entry: earlier entries win.
pub proof fn lemma_table_get_push(s: Seq<(String, Value)>, x: (String, Value), k: Seq<char>)
    ensures
        table_get(s.push(x), k) == match table_get(s, k) {
            Some(v) => Some(v),
            None => if x.0@ == k {
                Some(x.1)
            } else {
                None
            },
        },
    decreases s.len(),
{
    if s.len() == 0 {
        assert(s.push(x)[0] == x);
        assert(s.push(x).drop_first() =~= Seq::<(String, Value)>::empty());
        assert(table_get(s.push(x).drop_first(), k) is None);
    } else {
        assert(s.push(x)[0] == s[0]);
        assert(s.push(x).drop_first() =~= s.drop_first().push(x));
        lemma_table_get_push(s.drop_first(), x, k);
    }
}

/// Look a key up in a table's entries.
pub fn lookup<'a>(t: &'a Vec<(String, Value)>, key: &str) -> (r: Option<&'a Value>)
    ensures
        match r {
            Some(v) => table_get(t@, key@) == Some(*v),
            None => table_get(t@, key@).is_none(),
        },
{
    let mut i: usize = 0;
    assert(t@.subrange(0, t@.len() as int) =~= t@);
    while i < t.len()
        invariant
            i <= t@.len(),
            table_get(t@, key@) == table_get(t@.subrange(i as int, t@.len() as int), key@),
        decreases t.len() - i,
    {
        proof {
            let rest = t@.subrange(i as int, t@.len() as int);
            assert(rest.drop_first() =~= t@.subrange(i + 1, t@.len() as int));
            assert(rest[0] == t@[i as int]);
        }
        let k = &t[i].0;
        if k.eq(&String::from_str(key)) {
            return Some(&t[i].1);
        }
        i += 1;
    }
    proof {
        assert(t@.subrange(i as int, t@.len() as int).len() == 0);
    }
    None
}

/// Look a table up under a key.
pub fn lookup_table<'a>(t: &'a Vec<(String, Value)>, key: &str) -> (r: Option<
    &'a Vec<(String, Value)>,
>)
    ensures
        match r {
            Some(v) => get_table(t@, key@) == Some(v@),
            None => get_table(t@, key@).is_none(),
        },
{
    match lookup(t, key) {
        Some(Value::Table(e)) => Some(e),
        _ => None,
    }
}

/// Look an array up under a key.
pub fn lookup_array<'a>(t: &'a Vec<(String, Value)>, key: &str) -> (r: Option<&'a Vec<Value>>)
    ensures
        match r {
            Some(v) => get_array(t@, key@) == Some(v@),
            None => get_array(t@, key@).is_none(),
        },
{
    match lookup(t, key) {
        Some(Value::Array(e)) => Some(e),
        _ => None,
    }
}

/// Look an integer up under a key.
pub fn lookup_int(t: &Vec<(String, Value)>, key: &str) -> (r: Option<i64>)
    ensures
        r == get_int(t@, key@),
{
    match lookup(t, key) {
        Some(Value::Integer(i)) => Some(*i),
        _ => None,
    }
}

/// Look a string up under a key.
pub fn lookup_str<'a>(t: &'a Vec<(String, Value)>, key: &str) -> (r: Option<&'a String>)
    ensures
        match r {
            Some(s) => get_str(t@, key@) == Some(s@),
            None => get_str(t@, key@).is_none(),
        },
{
    match lookup(t, key) {
        Some(Value::String(s)) => Some(s),
        _ => None,
    }
}

} // verus!
