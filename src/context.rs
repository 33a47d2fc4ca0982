use vstd::prelude::*;
use crate::paths::split_on_slash;
use crate::text::{chars_of, is_text, push_char, string_of};
use crate::url::split_segs;
use crate::format::ResourceFormat;
use crate::lock_file::LockFile;
use crate::store::{path_join, ResourceStore};

verus! {

/// What a module may reach: its folders, the files and archives among its
/// package's inputs, and any extra granted paths.
#[derive(Debug)]
pub struct Context {
    pub resource_hash: crate::hash::Hash,
    pub temp_folder: String,
    pub module_folder: String,
    pub persistent_folder: String,
    pub input_resources: Vec<String>,
    /// Whether the process API is granted.
    pub ext_process_api: bool,
    pub ext_allowed_paths: Vec<String>,
}

/// Whether a segment names a component: not empty and not `.`.
pub open spec fn component_kept() -> spec_fn(Seq<char>) -> bool {
    |s: Seq<char>| s.len() > 0 && s != "."@
}

/// The components of a path: its `/`-separated segments but empty ones
/// and `.`.
pub open spec fn path_components(p: Seq<char>) -> Seq<Seq<char>> {
    split_segs(p).filter(component_kept())
}

pub open spec fn is_absolute(p: Seq<char>) -> bool {
    p.len() > 0 && p[0] == '/'
}

/// Whether `p` lies under `base`: both absolute or both relative, and the
/// components of `base` start those of `p`.
pub open spec fn path_under(p: Seq<char>, base: Seq<char>) -> bool {
    let pc = path_components(p);
    let bc = path_components(base);
    is_absolute(p) == is_absolute(base) && bc.len() <= pc.len() && pc.subrange(0, bc.len() as int) == bc
}

/// The components of a path.
fn components(p: &[char]) -> (r: Vec<Vec<char>>)
    ensures
        r@.map_values(|v: Vec<char>| v@) == path_components(p@),
{
    let segs = split_on_slash(p);
    let ghost sv = segs@.map_values(|v: Vec<char>| v@);
    let mut out: Vec<Vec<char>> = Vec::new();
    let mut i: usize = 0;
    assert(sv.subrange(0, 0).filter(component_kept()) =~= Seq::<Seq<char>>::empty()) by {
        assert(sv.subrange(0, 0) =~= Seq::<Seq<char>>::empty());
    }
    assert(out@.map_values(|v: Vec<char>| v@) =~= Seq::<Seq<char>>::empty());
    while i < segs.len()
        invariant
            sv == segs@.map_values(|v: Vec<char>| v@),
            i <= segs@.len(),
            out@.map_values(|v: Vec<char>| v@) == sv.subrange(0, i as int).filter(component_kept()),
        decreases segs.len() - i,
    {
        let ghost a = sv.subrange(0, i as int);
        let ghost b = sv.subrange(0, i + 1);
        proof {
            assert(b.drop_last() =~= a);
            assert(b.last() == segs@[i as int]@);
            reveal_with_fuel(Seq::filter, 2);
        }
        let seg = &segs[i];
        if seg.len() > 0 && !is_text(seg.as_slice(), ".") {
            let ghost before = out@.map_values(|v: Vec<char>| v@);
            let copy = crate::text::slice_of(seg.as_slice(), 0, seg.len());
            proof {
                assert(copy@ =~= seg@);
            }
            out.push(copy);
            proof {
                assert(component_kept()(seg@));
                assert(out@.map_values(|v: Vec<char>| v@) =~= before.push(seg@));
            }
        } else {
            proof {
                assert(!component_kept()(seg@));
            }
        }
        i += 1;
    }
    assert(sv.subrange(0, i as int) =~= sv);
    out
}

/// Whether `p` lies under `base`.
pub fn is_under(p: &str, base: &str) -> (r: bool)
    ensures
        r == path_under(p@, base@),
{
    let pc = chars_of(p);
    let bc = chars_of(base);
    let pa = pc.len() > 0 && pc[0] == '/';
    let ba = bc.len() > 0 && bc[0] == '/';
    if pa != ba {
        return false;
    }
    let pcs = components(pc.as_slice());
    let bcs = components(bc.as_slice());
    let ghost pv = pcs@.map_values(|v: Vec<char>| v@);
    let ghost bv = bcs@.map_values(|v: Vec<char>| v@);
    assert(pv.len() == pcs@.len());
    assert(bv.len() == bcs@.len());
    assert(pc@ == p@);
    assert(pv == path_components(p@));
    assert(bv == path_components(base@));
    if bcs.len() > pcs.len() {
        return false;
    }
    let mut i: usize = 0;
    while i < bcs.len()
        invariant
            bcs@.len() <= pcs@.len(),
            pv == pcs@.map_values(|v: Vec<char>| v@),
            bv == bcs@.map_values(|v: Vec<char>| v@),
            i <= bcs@.len(),
            forall|j: int| 0 <= j < i ==> pv[j] == bv[j],
            pv == path_components(p@),
            bv == path_components(base@),
            is_absolute(p@) == is_absolute(base@),
        decreases bcs.len() - i,
    {
        if !crate::text::same_chars(pcs[i].as_slice(), bcs[i].as_slice()) {
            proof {
                assert(pv.subrange(0, bv.len() as int)[i as int] != bv[i as int]);
            }
            return false;
        }
        i += 1;
    }
    assert(pv.subrange(0, bv.len() as int) =~= bv);
    true
}

/// Whether any path of a list has `p` under it.
pub open spec fn under_any(p: Seq<char>, bases: Seq<String>) -> bool {
    exists|i: int| 0 <= i < bases.len() && path_under(p, (#[trigger] bases[i])@)
}

fn is_under_any(p: &str, bases: &Vec<String>) -> (r: bool)
    ensures
        r == under_any(p@, bases@),
{
    let mut i: usize = 0;
    while i < bases.len()
        invariant
            i <= bases@.len(),
            forall|j: int| 0 <= j < i ==> !path_under(p@, (#[trigger] bases@[j])@),
        decreases bases.len() - i,
    {
        if is_under(p, bases[i].as_str()) {
            return true;
        }
        i += 1;
    }
    false
}

impl Context {
    /// Whether a path is reachable from this context: it lies under the
    /// module, temporary or persistent folder, an input resource, or an
    /// extra granted path.
    pub fn is_accessible(&self, path: &str) -> (r: bool)
        ensures
            r == (path_under(path@, self.module_folder@) || path_under(path@, self.temp_folder@)
                || path_under(path@, self.persistent_folder@) || under_any(path@, self.input_resources@)
                || under_any(path@, self.ext_allowed_paths@)),
    {
        is_under(path, self.module_folder.as_str()) || is_under(path, self.temp_folder.as_str())
            || is_under(path, self.persistent_folder.as_str()) || is_under_any(path, &self.input_resources)
            || is_under_any(path, &self.ext_allowed_paths)
    }
}

/// ASCII letters and digits stay, anything else becomes `_`.
pub open spec fn key_char(c: char) -> char {
    if ('a' <= c && c <= 'z') || ('A' <= c && c <= 'Z') || ('0' <= c && c <= '9') {
        c
    } else {
        '_'
    }
}

/// Every `__` replaced by `_`, left to right, without overlap.
pub open spec fn collapse_pairs(s: Seq<char>) -> Seq<char>
    decreases s.len(),
{
    if s.len() >= 2 && s[0] == '_' && s[1] == '_' {
        seq!['_'] + collapse_pairs(s.subrange(2, s.len() as int))
    } else if s.len() == 0 {
        s
    } else {
        seq![s[0]] + collapse_pairs(s.drop_first())
    }
}

/// `s` without the `_` at its start.
pub open spec fn trim_start(s: Seq<char>) -> Seq<char>
    decreases s.len(),
{
    if s.len() > 0 && s[0] == '_' {
        trim_start(s.drop_first())
    } else {
        s
    }
}

/// `s` without the `_` at its end.
pub open spec fn trim_end(s: Seq<char>) -> Seq<char>
    decreases s.len(),
{
    if s.len() > 0 && s.last() == '_' {
        trim_end(s.drop_last())
    } else {
        s
    }
}

/// `s` without the `_` at both ends.
pub open spec fn trim_underscores(s: Seq<char>) -> Seq<char> {
    trim_end(trim_start(s))
}

/// The folder name a persistence key gets: the base32 hash of the key, then
/// `-` and the key with its characters made safe, when anything is left.
pub open spec fn persist_name(key: Seq<char>, key_hash: crate::hash::Hash) -> Seq<char> {
    let safe = collapse_pairs(trim_underscores(key.map_values(|c: char| key_char(c))));
    let h = crate::hash::base32_text(key_hash.0);
    if safe.len() == 0 {
        h
    } else {
        h + "-"@ + safe
    }
}

fn safe_key(key: &[char]) -> (r: Vec<char>)
    ensures
        r@ == collapse_pairs(trim_underscores(key@.map_values(|c: char| key_char(c)))),
{
    let mut m: Vec<char> = Vec::new();
    let mut i: usize = 0;
    while i < key.len()
        invariant
            i <= key@.len(),
            m@ == key@.subrange(0, i as int).map_values(|c: char| key_char(c)),
        decreases key.len() - i,
    {
        let c = key[i];
        let k = if ('a' <= c && c <= 'z') || ('A' <= c && c <= 'Z') || ('0' <= c && c <= '9') {
            c
        } else {
            '_'
        };
        m.push(k);
        proof {
            assert(key@.subrange(0, i + 1).map_values(|c: char| key_char(c)) =~= key@.subrange(0, i as int).map_values(|c: char| key_char(c)).push(k));
        }
        i += 1;
    }
    assert(key@.subrange(0, i as int) =~= key@);
    let ghost mv = m@;
    // Trim the start.
    let mut a: usize = 0;
    assert(mv.subrange(0, mv.len() as int) =~= mv);
    while a < m.len() && m[a] == '_'
        invariant
            m@ == mv,
            a <= m@.len(),
            trim_start(mv) == trim_start(mv.subrange(a as int, mv.len() as int)),
        decreases m.len() - a,
    {
        proof {
            let t = mv.subrange(a as int, mv.len() as int);
            assert(t.drop_first() =~= mv.subrange(a + 1, mv.len() as int));
        }
        a += 1;
    }
    // Trim the end.
    let mut b: usize = m.len();
    let ghost ts = mv.subrange(a as int, mv.len() as int);
    proof {
        let t = mv.subrange(a as int, mv.len() as int);
        if t.len() > 0 {
            assert(t[0] == mv[a as int]);
        }
        assert(trim_start(t) == t);
        assert(t.subrange(0, t.len() as int) =~= t);
    }
    while b > a && m[b - 1] == '_'
        invariant
            m@ == mv,
            a <= b <= m@.len(),
            ts == mv.subrange(a as int, mv.len() as int),
            trim_end(ts) == trim_end(mv.subrange(a as int, b as int)),
        decreases b,
    {
        proof {
            assert(mv.subrange(a as int, b as int).drop_last() =~= mv.subrange(a as int, b - 1));
        }
        b -= 1;
    }
    let ghost trimmed = mv.subrange(a as int, b as int);
    proof {
        if trimmed.len() > 0 {
            assert(trimmed.last() == mv[b - 1]);
        }
        assert(trim_end(trimmed) == trimmed);
    }
    // Collapse pairs of underscores, left to right.
    let mut out: Vec<char> = Vec::new();
    let mut j: usize = a;
    assert(mv.subrange(j as int, b as int) =~= trimmed);
    while j < b
        invariant
            m@ == mv,
            a <= j <= b <= m@.len(),
            collapse_pairs(trimmed) == out@ + collapse_pairs(mv.subrange(j as int, b as int)),
        decreases b - j,
    {
        let ghost rest = mv.subrange(j as int, b as int);
        if j + 1 < b && m[j] == '_' && m[j + 1] == '_' {
            out.push('_');
            proof {
                assert(rest.subrange(2, rest.len() as int) =~= mv.subrange(j + 2, b as int));
                assert(collapse_pairs(rest) == seq!['_'] + collapse_pairs(mv.subrange(j + 2, b as int)));
            }
            j += 2;
            proof {
                let o = out@;
                assert(o.drop_last().push('_') =~= o);
            }
        } else {
            let c = m[j];
            let ghost before = out@;
            out.push(c);
            proof {
                assert(rest.drop_first() =~= mv.subrange(j + 1, b as int));
                assert(rest[0] == c);
                assert(collapse_pairs(rest) == seq![c] + collapse_pairs(mv.subrange(j + 1, b as int)));
                assert(out@ =~= before + seq![c]);
            }
            j += 1;
        }
    }
    proof {
        assert(mv.subrange(j as int, b as int) =~= Seq::<char>::empty());
        assert(out@ =~= out@ + collapse_pairs(Seq::<char>::empty()));
    }
    out
}

/// The folder name under the persistent folder for a key.
pub fn persist_dir_name(key: &str) -> (r: String)
    ensures
        r@ == persist_name(key@, crate::hash::Hash(crate::hash::seahash_of(vstd::utf8::encode_utf8(key@)))),
{
    let h = crate::hash::Hash::for_slice(key.as_bytes()).to_base32();
    let c = chars_of(key);
    let safe = safe_key(c.as_slice());
    if safe.len() == 0 {
        return h;
    }
    let mut s = h;
    push_char(&mut s, '-');
    let t = string_of(safe.as_slice());
    let r = s.concat(t.as_str());
    proof {
        reveal_strlit("-");
    }
    assert(r@ =~= crate::hash::base32_text(crate::hash::seahash_of(vstd::utf8::encode_utf8(key@))) + "-"@ + safe@);
    r
}

/// Whether a module may read a resource of this format through its
/// package's inputs: files and archives.
pub open spec fn readable_input(f: ResourceFormat) -> bool {
    f == ResourceFormat::File || f matches ResourceFormat::Archive(_)
}

/// The ids among a package's inputs that a module of it may read, in
/// table order.
pub open spec fn readable_inputs(lock: LockFile, ins: Seq<(String, u32)>) -> Seq<u32>
    decreases ins.len(),
{
    if ins.len() == 0 {
        Seq::empty()
    } else {
        let rest = readable_inputs(lock, ins.drop_last());
        let id = ins.last().1;
        if id < lock.resources@.len() && readable_input(lock.resources@[id as int].format) {
            rest.push(id)
        } else {
            rest
        }
    }
}

/// The store path of a resource.
pub open spec fn store_path(store: ResourceStore, lock: LockFile, id: u32) -> Seq<char> {
    path_join(store.folder@, crate::hash::base32_text(lock.resources@[id as int].lock.hash.0))
}

/// The paths a module may read beyond its folders: its own file, then the
/// files and archives among its parent package's inputs.
pub open spec fn module_inputs(store: ResourceStore, lock: LockFile, id: u32, parent: Option<u32>) -> Seq<Seq<char>> {
    seq![store_path(store, lock, id)] + match parent {
        Some(p) => match lock.resources@[p as int].inputs {
            Some(v) => readable_inputs(lock, v@).map_values(|c: u32| store_path(store, lock, c)),
            None => Seq::empty(),
        },
        None => Seq::empty(),
    }
}

/// The context of the module with lock id `id`, output of `parent` when it
/// has one: its own folder under `modules`, the shared temporary and
/// persistent folders, and the paths of `module_inputs`; no extra grant.
pub fn module_context(
    store: &ResourceStore,
    lock: &LockFile,
    id: u32,
    parent: Option<u32>,
    temp: &String,
    persist: &String,
    modules: &String,
) -> (r: Context)
    requires
        id < lock.resources@.len(),
        parent matches Some(p) ==> p < lock.resources@.len(),
    ensures
        r.resource_hash == lock.resources@[id as int].lock.hash,
        r.temp_folder@ == temp@,
        r.persistent_folder@ == persist@,
        r.module_folder@ == path_join(modules@, crate::hash::base32_text(lock.resources@[id as int].lock.hash.0)),
        r.input_resources@.map_values(|s: String| s@) == module_inputs(*store, *lock, id, parent),
        !r.ext_process_api,
        r.ext_allowed_paths@.len() == 0,
{
    let hash = lock.resources[id as usize].lock.hash;
    let mut inputs: Vec<String> = Vec::new();
    inputs.push(store.get_path(&hash));
    let ghost head = seq![store_path(*store, *lock, id)];
    assert(inputs@.map_values(|s: String| s@) =~= head);
    match parent {
        Some(p) => match &lock.resources[p as usize].inputs {
            Some(v) => {
                let mut i: usize = 0;
                while i < v.len()
                    invariant
                        i <= v@.len(),
                        lock.resources@[p as int].inputs == Some(*v),
                        head == seq![store_path(*store, *lock, id)],
                        inputs@.map_values(|s: String| s@) == head + readable_inputs(*lock, v@.subrange(0, i as int)).map_values(
                            |c: u32| store_path(*store, *lock, c),
                        ),
                    decreases v.len() - i,
                {
                    proof {
                        assert(v@.subrange(0, i + 1).drop_last() =~= v@.subrange(0, i as int));
                    }
                    let c = v[i].1;
                    if (c as usize) < lock.resources.len() {
                        let readable = match lock.resources[c as usize].format {
                            ResourceFormat::File => true,
                            ResourceFormat::Archive(_) => true,
                            _ => false,
                        };
                        if readable {
                            let ghost before = inputs@.map_values(|s: String| s@);
                            let path = store.get_path(&lock.resources[c as usize].lock.hash);
                            inputs.push(path);
                            proof {
                                let rs = readable_inputs(*lock, v@.subrange(0, i as int));
                                assert(readable_inputs(*lock, v@.subrange(0, i + 1)) == rs.push(c));
                                assert(rs.push(c).map_values(|c: u32| store_path(*store, *lock, c)) =~= rs.map_values(
                                    |c: u32| store_path(*store, *lock, c),
                                ).push(store_path(*store, *lock, c)));
                                assert(inputs@.map_values(|s: String| s@) =~= before.push(store_path(*store, *lock, c)));
                            }
                        }
                    }
                    i += 1;
                }
                assert(v@.subrange(0, i as int) =~= v@);
            },
            None => {},
        },
        None => {},
    }
    proof {
        match parent {
            Some(p) => match lock.resources@[p as int].inputs {
                Some(_) => {},
                None => assert(head + Seq::<Seq<char>>::empty() =~= head),
            },
            None => assert(head + Seq::<Seq<char>>::empty() =~= head),
        }
    }
    let base = hash.to_base32();
    Context {
        resource_hash: hash,
        temp_folder: temp.clone(),
        module_folder: crate::store::join_name(modules, &base),
        persistent_folder: persist.clone(),
        input_resources: inputs,
        ext_process_api: false,
        ext_allowed_paths: Vec::new(),
    }
}

} // verus!
