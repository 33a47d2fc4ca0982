use vstd::prelude::*;
use crate::format::ResourceFormat;
use crate::lock_file::{LockFile, ResourceLock};
use crate::resolver::lock_well_formed;
use crate::text::{chars_of, starts_with};

verus! {

/// One resource met while draining the lock's graph, with the package whose
/// output it is (none for roots and inputs).
#[derive(Debug, Clone, Copy, PartialEq, Eq, Structural)]
pub struct LoadStep {
    pub id: u32,
    pub parent: Option<u32>,
}

/// The ids of a name to id table.
pub open spec fn ref_ids(o: Option<Vec<(String, u32)>>) -> Seq<u32> {
    match o {
        Some(v) => v@.map_values(|p: (String, u32)| p.1),
        None => Seq::empty(),
    }
}

/// Whether `child` is an input or an output of resource `r`.
pub open spec fn is_child(r: ResourceLock, child: u32) -> bool {
    ref_ids(r.inputs).contains(child) || ref_ids(r.outputs).contains(child)
}

/// Whether an item from `start` on carries `c`.
pub open spec fn in_from(stack: Seq<LoadStep>, start: int, c: u32) -> bool {
    exists|k: int| start <= k < stack.len() && (#[trigger] stack[k]).id == c
}

/// Push the ids of a name to id table.
fn push_table(stack: &mut Vec<LoadStep>, v: &Vec<(String, u32)>, parent: Option<u32>, n: Ghost<int>)
    requires
        forall|k: int| 0 <= k < v@.len() ==> (#[trigger] v@[k]).1 < n@,
        forall|k: int| 0 <= k < old(stack)@.len() ==> (#[trigger] old(stack)@[k]).id < n@,
    ensures
        forall|k: int| 0 <= k < final(stack)@.len() ==> (#[trigger] final(stack)@[k]).id < n@,
        final(stack)@.len() >= old(stack)@.len(),
        forall|k: int| 0 <= k < old(stack)@.len() ==> final(stack)@[k] == old(stack)@[k],
        forall|j: int| 0 <= j < v@.len() ==> in_from(final(stack)@, old(stack)@.len() as int, (#[trigger] v@[j]).1),
{
    let ghost start = stack@.len() as int;
    let mut i: usize = 0;
    while i < v.len()
        invariant
            i <= v@.len(),
            forall|k: int| 0 <= k < v@.len() ==> (#[trigger] v@[k]).1 < n@,
            start == old(stack)@.len(),
            stack@.len() >= start,
            forall|k: int| 0 <= k < old(stack)@.len() ==> stack@[k] == old(stack)@[k],
            forall|k: int| 0 <= k < stack@.len() ==> (#[trigger] stack@[k]).id < n@,
            forall|j: int| 0 <= j < i ==> in_from(stack@, start, (#[trigger] v@[j]).1),
        decreases v.len() - i,
    {
        let ghost before = stack@;
        stack.push(LoadStep { id: v[i].1, parent });
        proof {
            assert(stack@[stack@.len() - 1].id == v@[i as int].1);
            assert forall|j: int| 0 <= j < i + 1 implies in_from(stack@, start, (#[trigger] v@[j]).1) by {
                if j < i {
                    let k = choose|k: int| start <= k < before.len() && (#[trigger] before[k]).id == v@[j].1;
                    assert(stack@[k] == before[k]);
                }
            }
        }
        i += 1;
    }
}

/// Push the children of a package: outputs (with the package as parent),
/// then inputs (with no parent).
fn push_children(stack: &mut Vec<LoadStep>, r: &ResourceLock, id: u32, n: Ghost<int>)
    requires
        resource_fits_ids(*r, n@),
        forall|k: int| 0 <= k < old(stack)@.len() ==> (#[trigger] old(stack)@[k]).id < n@,
    ensures
        forall|k: int| 0 <= k < final(stack)@.len() ==> (#[trigger] final(stack)@[k]).id < n@,
        final(stack)@.len() >= old(stack)@.len(),
        forall|k: int| 0 <= k < old(stack)@.len() ==> final(stack)@[k] == old(stack)@[k],
        forall|c: u32| is_child(*r, c) ==> in_from(final(stack)@, old(stack)@.len() as int, c),
{
    let ghost start = stack@.len() as int;
    match &r.outputs {
        Some(v) => {
            proof {
                assert forall|k: int| 0 <= k < v@.len() implies (#[trigger] v@[k]).1 < n@ by {
                    assert(ref_ids(r.outputs)[k] == v@[k].1);
                }
            }
            push_table(stack, v, Some(id), n);
        },
        None => {},
    }
    let ghost mid = stack@;
    match &r.inputs {
        Some(v) => {
            proof {
                assert forall|k: int| 0 <= k < v@.len() implies (#[trigger] v@[k]).1 < n@ by {
                    assert(ref_ids(r.inputs)[k] == v@[k].1);
                }
            }
            push_table(stack, v, None, n);
        },
        None => {},
    }
    proof {
        assert forall|c: u32| is_child(*r, c) implies in_from(stack@, start, c) by {
            if ref_ids(r.outputs).contains(c) {
                let v = r.outputs->Some_0;
                let j = choose|j: int| 0 <= j < ref_ids(r.outputs).len() && ref_ids(r.outputs)[j] == c;
                assert(v@[j].1 == c);
                assert(in_from(mid, start, v@[j].1));
                let k = choose|k: int| start <= k < mid.len() && (#[trigger] mid[k]).id == c;
                assert(stack@[k] == mid[k]);
            } else {
                let v = r.inputs->Some_0;
                let j = choose|j: int| 0 <= j < ref_ids(r.inputs).len() && ref_ids(r.inputs)[j] == c;
                assert(v@[j].1 == c);
                assert(in_from(stack@, mid.len() as int, v@[j].1));
            }
        }
    }
}

/// Whether every id of a resource's tables is below `n`.
pub open spec fn resource_fits_ids(r: ResourceLock, n: int) -> bool {
    &&& forall|k: int| 0 <= k < ref_ids(r.inputs).len() ==> (#[trigger] ref_ids(r.inputs)[k]) < n
    &&& forall|k: int| 0 <= k < ref_ids(r.outputs).len() ==> (#[trigger] ref_ids(r.outputs)[k]) < n
}

proof fn lemma_fits_ids(l: LockFile, i: int)
    requires
        lock_well_formed(l),
        0 <= i < l.resources@.len(),
    ensures
        resource_fits_ids(l.resources@[i], l.resources@.len() as int),
{
    let r = l.resources@[i];
    assert(crate::resolver::resource_fits(r, l.resources@.len() as int));
}

/// Whether the steps visit `id`.
pub open spec fn visits(steps: Seq<LoadStep>, id: u32) -> bool {
    exists|k: int| 0 <= k < steps.len() && (#[trigger] steps[k]).id == id
}

/// The order in which the runtime drains a lock's graph, depth first from
/// the roots: each resource is visited once; a package pushes its outputs
/// (whose parent it is) and then its inputs (which have no parent). Every
/// root is visited, and so is every input and output of a visited package.
pub fn load_order(lock: &LockFile) -> (r: Vec<LoadStep>)
    requires
        lock_well_formed(*lock),
    ensures
        forall|k: int| 0 <= k < r@.len() ==> (#[trigger] r@[k]).id < lock.resources@.len(),
        forall|a: int, b: int| 0 <= a < b < r@.len() ==> r@[a].id != r@[b].id,
        forall|k: int| 0 <= k < lock.lock.root@.len() ==> visits(r@, #[trigger] lock.lock.root@[k]),
        forall|k: int, c: u32| 0 <= k < r@.len() && is_child(lock.resources@[r@[k].id as int], c) ==> visits(r@, c),
{
    let n = lock.resources.len();
    let mut visited: Vec<bool> = Vec::new();
    let mut i: usize = 0;
    while i < n
        invariant
            i <= n,
            visited@.len() == i,
            forall|k: int| 0 <= k < i ==> !visited@[k],
        decreases n - i,
    {
        visited.push(false);
        i += 1;
    }
    let mut stack: Vec<LoadStep> = Vec::new();
    let mut j: usize = 0;
    while j < lock.lock.root.len()
        invariant
            lock_well_formed(*lock),
            n == lock.resources@.len(),
            j <= lock.lock.root@.len(),
            stack@.len() == j,
            forall|k: int| 0 <= k < j ==> (#[trigger] stack@[k]).id == lock.lock.root@[k],
            forall|k: int| 0 <= k < stack@.len() ==> (#[trigger] stack@[k]).id < n,
        decreases lock.lock.root.len() - j,
    {
        stack.push(LoadStep { id: lock.lock.root[j], parent: None });
        j += 1;
    }
    let mut out: Vec<LoadStep> = Vec::new();
    assert forall|k: int| 0 <= k < lock.lock.root@.len() implies visits(stack@, #[trigger] lock.lock.root@[k]) by {
        assert(stack@[k].id == lock.lock.root@[k]);
    }
    while stack.len() > 0
        invariant
            lock_well_formed(*lock),
            n == lock.resources@.len(),
            visited@.len() == n,
            forall|k: int| 0 <= k < stack@.len() ==> (#[trigger] stack@[k]).id < n,
            forall|k: int| 0 <= k < out@.len() ==> (#[trigger] out@[k]).id < n,
            forall|k: int| 0 <= k < out@.len() ==> visited@[(#[trigger] out@[k]).id as int],
            forall|x: int| 0 <= x < n && #[trigger] visited@[x] ==> visits(out@, x as u32),
            forall|a: int, b: int| 0 <= a < b < out@.len() ==> out@[a].id != out@[b].id,
            forall|k: int| 0 <= k < lock.lock.root@.len() ==> visits(out@, #[trigger] lock.lock.root@[k]) || visits(stack@, lock.lock.root@[k]),
            forall|k: int, c: u32| 0 <= k < out@.len() && is_child(lock.resources@[out@[k].id as int], c) ==> visits(out@, c) || visits(stack@, c),
        decreases falses(visited@), stack.len(),
    {
        let ghost stack_before = stack@;
        let step = stack.pop().unwrap();
        let ghost popped = stack@;
        proof {
            assert(stack_before == popped.push(step));
            assert forall|c: u32| visits(stack_before, c) implies visits(popped, c) || c == step.id by {
                let s = choose|s: int| 0 <= s < stack_before.len() && (#[trigger] stack_before[s]).id == c;
                if s < popped.len() {
                    assert(popped[s] == stack_before[s]);
                }
            }
        }
        if visited[step.id as usize] {
            proof {
                assert(visits(out@, step.id));
            }
            continue;
        }
        let ghost vis_before = visited@;
        visited.set(step.id as usize, true);
        proof {
            lemma_falses_update(vis_before, step.id as int);
        }
        let ghost out_before = out@;
        out.push(step);
        let r = &lock.resources[step.id as usize];
        proof {
            lemma_fits_ids(*lock, step.id as int);
            assert(out@[out@.len() - 1].id == step.id);
            assert(visits(out@, step.id));
            assert forall|c: u32| visits(out_before, c) implies visits(out@, c) by {
                let q = choose|q: int| 0 <= q < out_before.len() && (#[trigger] out_before[q]).id == c;
                assert(out@[q] == out_before[q]);
            }
            assert forall|x: int| 0 <= x < n && #[trigger] visited@[x] implies visits(out@, x as u32) by {
                if x != step.id {
                    assert(vis_before[x]);
                    assert(visits(out_before, x as u32));
                }
            }
            assert forall|a: int, b: int| 0 <= a < b < out@.len() implies out@[a].id != out@[b].id by {
                if b == out@.len() - 1 {
                    assert(visited@[out_before[a].id as int] || out_before[a].id == step.id);
                    assert(vis_before[out_before[a].id as int]);
                }
            }
        }
        let ghost stack_mid = stack@;
        if r.format == ResourceFormat::Package {
            push_children(&mut stack, r, step.id, Ghost(n as int));
        }
        proof {
            assert forall|c: u32| visits(stack_mid, c) implies visits(stack@, c) by {
                let s = choose|s: int| 0 <= s < stack_mid.len() && (#[trigger] stack_mid[s]).id == c;
                assert(stack@[s] == stack_mid[s]);
            }
            assert forall|c: u32| is_child(*r, c) implies visits(stack@, c) by {
                if r.format == ResourceFormat::Package {
                    assert(in_from(stack@, stack_mid.len() as int, c));
                } else {
                    assert(r.inputs is None && r.outputs is None) by {
                        assert(crate::resolver::resource_fits(*r, n as int));
                    }
                    assert(ref_ids(r.inputs).len() == 0);
                    assert(ref_ids(r.outputs).len() == 0);
                }
            }
            assert forall|k: int| 0 <= k < lock.lock.root@.len() implies visits(out@, #[trigger] lock.lock.root@[k]) || visits(stack@, lock.lock.root@[k]) by {
                let root = lock.lock.root@[k];
                if visits(out_before, root) {
                } else if root == step.id {
                } else {
                    assert(visits(stack_before, root));
                    assert(visits(popped, root));
                }
            }
            assert forall|k: int, c: u32| 0 <= k < out@.len() && is_child(lock.resources@[out@[k].id as int], c) implies visits(out@, c) || visits(stack@, c) by {
                if k < out_before.len() {
                    assert(out@[k] == out_before[k]);
                    if visits(out_before, c) {
                    } else if c == step.id {
                    } else {
                        assert(visits(stack_before, c));
                        assert(visits(popped, c));
                    }
                } else {
                    assert(out@[k] == step);
                }
            }
        }
    }
    out
}

/// Number of unset flags.
pub open spec fn falses(s: Seq<bool>) -> nat
    decreases s.len(),
{
    if s.len() == 0 {
        0
    } else {
        falses(s.drop_last()) + if s.last() {
            0nat
        } else {
            1nat
        }
    }
}

proof fn lemma_falses_update(s: Seq<bool>, i: int)
    requires
        0 <= i < s.len(),
        !s[i],
    ensures
        falses(s.update(i, true)) + 1 == falses(s),
    decreases s.len(),
{
    let t = s.update(i, true);
    if i == s.len() - 1 {
        assert(t.drop_last() =~= s.drop_last());
    } else {
        assert(t.drop_last() =~= s.drop_last().update(i, true));
        lemma_falses_update(s.drop_last(), i);
    }
}

/// Whether a format is a module.
pub open spec fn is_module(f: ResourceFormat) -> bool {
    f matches ResourceFormat::Module(_)
}

/// The modules among the steps, in step order.
pub open spec fn module_steps(lock: LockFile, steps: Seq<LoadStep>) -> Seq<u32>
    decreases steps.len(),
{
    if steps.len() == 0 {
        Seq::empty()
    } else {
        let rest = module_steps(lock, steps.drop_last());
        let last = steps.last();
        if is_module(lock.resources@[last.id as int].format) {
            rest.push(last.id)
        } else {
            rest
        }
    }
}

/// The order in which modules run: the order in which the drain met them.
/// A package's inputs are pushed after its outputs and so drained first:
/// a module runs after the modules it can load or import.
pub fn evaluation_order(lock: &LockFile, steps: &Vec<LoadStep>) -> (r: Vec<u32>)
    requires
        forall|k: int| 0 <= k < steps@.len() ==> (#[trigger] steps@[k]).id < lock.resources@.len(),
    ensures
        r@ == module_steps(*lock, steps@),
{
    let mut out: Vec<u32> = Vec::new();
    let mut i: usize = 0;
    while i < steps.len()
        invariant
            i <= steps@.len(),
            forall|k: int| 0 <= k < steps@.len() ==> (#[trigger] steps@[k]).id < lock.resources@.len(),
            out@ == module_steps(*lock, steps@.subrange(0, i as int)),
        decreases steps.len() - i,
    {
        proof {
            assert(steps@.subrange(0, i + 1).drop_last() =~= steps@.subrange(0, i as int));
        }
        let id = steps[i].id;
        match lock.resources[id as usize].format {
            ResourceFormat::Module(_) => {
                out.push(id);
            },
            _ => {},
        }
        i += 1;
    }
    assert(steps@.subrange(0, i as int) =~= steps@);
    out
}

/// The module outputs of a package, in table order.
pub open spec fn module_outputs(lock: LockFile, outs: Seq<(String, u32)>) -> Seq<u32>
    decreases outs.len(),
{
    if outs.len() == 0 {
        Seq::empty()
    } else {
        let rest = module_outputs(lock, outs.drop_last());
        let id = outs.last().1;
        if 0 <= id < lock.resources@.len() && is_module(lock.resources@[id as int].format) {
            rest.push(id)
        } else {
            rest
        }
    }
}

/// The module outputs of the root packages, root by root.
pub open spec fn root_module_ids(lock: LockFile, roots: Seq<u32>) -> Seq<u32>
    decreases roots.len(),
{
    if roots.len() == 0 {
        Seq::empty()
    } else {
        let rest = root_module_ids(lock, roots.drop_last());
        let id = roots.last();
        if 0 <= id < lock.resources@.len() && lock.resources@[id as int].format
            == ResourceFormat::Package {
            match lock.resources@[id as int].outputs {
                Some(v) => rest + module_outputs(lock, v@),
                None => rest,
            }
        } else {
            rest
        }
    }
}

fn outputs_modules(lock: &LockFile, outs: &Vec<(String, u32)>, acc: &mut Vec<u32>)
    ensures
        final(acc)@ == old(acc)@ + module_outputs(*lock, outs@),
{
    let ghost start = acc@;
    let mut i: usize = 0;
    while i < outs.len()
        invariant
            i <= outs@.len(),
            acc@ == start + module_outputs(*lock, outs@.subrange(0, i as int)),
            start == old(acc)@,
        decreases outs.len() - i,
    {
        proof {
            assert(outs@.subrange(0, i + 1).drop_last() =~= outs@.subrange(0, i as int));
        }
        let id = outs[i].1;
        if (id as usize) < lock.resources.len() {
            match lock.resources[id as usize].format {
                ResourceFormat::Module(_) => {
                    let ghost before = acc@;
                    acc.push(id);
                    proof {
                        assert(acc@ =~= start + module_outputs(*lock, outs@.subrange(0, i as int)).push(id));
                    }
                },
                _ => {},
            }
        }
        i += 1;
    }
    assert(outs@.subrange(0, i as int) =~= outs@);
}

/// The module outputs of the root packages.
pub fn root_modules(lock: &LockFile) -> (r: Vec<u32>)
    ensures
        r@ == root_module_ids(*lock, lock.lock.root@),
{
    let mut out: Vec<u32> = Vec::new();
    let mut i: usize = 0;
    while i < lock.lock.root.len()
        invariant
            i <= lock.lock.root@.len(),
            out@ == root_module_ids(*lock, lock.lock.root@.subrange(0, i as int)),
        decreases lock.lock.root.len() - i,
    {
        proof {
            assert(lock.lock.root@.subrange(0, i + 1).drop_last() =~= lock.lock.root@.subrange(0, i as int));
        }
        let id = lock.lock.root[i];
        if (id as usize) < lock.resources.len() && lock.resources[id as usize].format == ResourceFormat::Package {
            match &lock.resources[id as usize].outputs {
                Some(v) => {
                    outputs_modules(lock, v, &mut out);
                },
                None => {},
            }
        }
        i += 1;
    }
    assert(lock.lock.root@.subrange(0, i as int) =~= lock.lock.root@);
    out
}

/// The value of a decimal text, with an optional `+`.
pub open spec fn u64_text_value(s: Seq<char>) -> Option<int> {
    let d = if s.len() > 0 && s[0] == '+' { s.drop_first() } else { s };
    if d.len() > 0 && crate::compression::all_digits(d) && crate::compression::digits_value(d) <= u64::MAX {
        Some(crate::compression::digits_value(d))
    } else {
        None
    }
}

proof fn lemma_digits_monotone(s: Seq<char>, k: int)
    requires
        0 <= k <= s.len(),
        crate::compression::all_digits(s),
    ensures
        crate::compression::digits_value(s.subrange(0, k)) <= crate::compression::digits_value(s),
    decreases s.len() - k,
{
    if k < s.len() {
        lemma_digits_monotone(s, k + 1);
        assert(s.subrange(0, k + 1).drop_last() =~= s.subrange(0, k));
        assert(crate::compression::all_digits(s.subrange(0, k + 1)));
        lemma_digits_nonneg(s.subrange(0, k));
    } else {
        assert(s.subrange(0, k) =~= s);
    }
}

proof fn lemma_digits_nonneg(s: Seq<char>)
    requires
        crate::compression::all_digits(s),
    ensures
        crate::compression::digits_value(s) >= 0,
    decreases s.len(),
{
    if s.len() > 0 {
        assert(crate::compression::all_digits(s.drop_last()));
        lemma_digits_nonneg(s.drop_last());
    }
}

/// Parse a decimal `u64`, with an optional `+`.
pub fn parse_u64(s: &[char]) -> (r: Option<u64>)
    ensures
        match r {
            Some(v) => u64_text_value(s@) == Some(v as int),
            None => u64_text_value(s@).is_none(),
        },
{
    let start: usize = if s.len() > 0 && s[0] == '+' { 1 } else { 0 };
    let d = crate::text::slice_of(s, start, s.len());
    proof {
        if start == 1 {
            assert(d@ =~= s@.drop_first());
        } else {
            assert(d@ =~= s@);
        }
    }
    if d.len() == 0 {
        return None;
    }
    let mut acc: u64 = 0;
    let mut i: usize = 0;
    while i < d.len()
        invariant
            i <= d@.len(),
            d@.len() > 0,
            start == 1 ==> d@ == s@.drop_first() && s@.len() > 0 && s@[0] == '+',
            start != 1 ==> d@ == s@ && !(s@.len() > 0 && s@[0] == '+'),
            crate::compression::all_digits(d@.subrange(0, i as int)),
            acc as int == crate::compression::digits_value(d@.subrange(0, i as int)),
        decreases d.len() - i,
    {
        let c = d[i];
        if !('0' <= c && c <= '9') {
            proof {
                assert(!crate::compression::all_digits(d@));
            }
            return None;
        }
        proof {
            assert(d@.subrange(0, i + 1).drop_last() =~= d@.subrange(0, i as int));
            assert(crate::compression::all_digits(d@.subrange(0, i + 1)));
        }
        let digit = (c as u32 - '0' as u32) as u64;
        if acc > (u64::MAX - digit) / 10 {
            proof {
                if crate::compression::all_digits(d@) {
                    lemma_digits_monotone(d@, i + 1);
                    assert(crate::compression::digits_value(d@.subrange(0, i + 1)) == acc * 10 + digit);
                    assert(acc * 10 + digit > u64::MAX) by (nonlinear_arith)
                        requires
                            acc > (u64::MAX - digit) / 10,
                            digit <= 9,
                    ;
                }
            }
            return None;
        }
        proof {
            assert(acc * 10 + digit <= u64::MAX) by (nonlinear_arith)
                requires
                    acc <= (u64::MAX - digit) / 10,
                    digit <= 9,
            ;
        }
        acc = acc * 10 + digit;
        i += 1;
    }
    assert(d@.subrange(0, i as int) =~= d@);
    Some(acc)
}

/// Whether `needle` occurs in `hay`.
pub open spec fn occurs_in(hay: Seq<char>, needle: Seq<char>) -> bool {
    exists|i: int| 0 <= i && i + needle.len() <= hay.len() && #[trigger] hay.subrange(i, i + needle.len()) == needle
}

fn occurs(hay: &[char], needle: &[char]) -> (r: bool)
    ensures
        r == occurs_in(hay@, needle@),
{
    if needle.len() > hay.len() {
        return false;
    }
    let hl = hay.len();
    let last = hl - needle.len();
    let mut i: usize = 0;
    loop
        invariant
            hl == hay@.len(),
            needle@.len() <= hay@.len(),
            last == hay@.len() - needle@.len(),
            i <= last,
            forall|j: int| 0 <= j < i ==> #[trigger] hay@.subrange(j, j + needle@.len()) != needle@,
        decreases last - i,
    {
        let w = crate::text::slice_of(hay, i, i + needle.len());
        if crate::text::same_chars(w.as_slice(), needle) {
            return true;
        }
        if i == last {
            return false;
        }
        i += 1;
    }
}

/// Whether resource `id` answers an identifier: its hash text holds the
/// identifier, or the identifier is a number equal to its id or its hash.
pub open spec fn answers(lock: LockFile, id: int, ident: Seq<char>) -> bool {
    let h = lock.resources@[id].lock.hash;
    occurs_in(crate::hash::base32_text(h.0), ident) || match u64_text_value(ident) {
        Some(x) => x == id || x == h.0,
        None => false,
    }
}

/// The resource an identifier names: a lock id given as a number, else the
/// first resource whose hash text holds the identifier or whose hash
/// equals it as a number.
pub fn find_resource(lock: &LockFile, ident: &str) -> (r: Option<u32>)
    requires
        lock.resources@.len() <= u32::MAX,
    ensures
        match r {
            Some(id) => id < lock.resources@.len() && (u64_text_value(ident@) == Some(id as int)
                || (forall|j: int| 0 <= j < id ==> !answers(*lock, j, ident@)) && answers(*lock, id as int, ident@)),
            None => forall|j: int| 0 <= j < lock.resources@.len() ==> !answers(*lock, j, ident@),
        },
{
    let c = chars_of(ident);
    let num = parse_u64(c.as_slice());
    match num {
        Some(x) => {
            if x < lock.resources.len() as u64 {
                return Some(x as u32);
            }
        },
        None => {},
    }
    let mut i: usize = 0;
    while i < lock.resources.len()
        invariant
            i <= lock.resources@.len(),
            lock.resources@.len() <= u32::MAX,
            c@ == ident@,
            match num {
                Some(x) => u64_text_value(ident@) == Some(x as int),
                None => u64_text_value(ident@).is_none(),
            },
            forall|j: int| 0 <= j < i ==> !answers(*lock, j, ident@),
        decreases lock.resources.len() - i,
    {
        let h = lock.resources[i].lock.hash;
        let text = h.to_base32();
        let tc = chars_of(text.as_str());
        let hit = occurs(tc.as_slice(), c.as_slice()) || match num {
            Some(x) => x == i as u64 || x == h.0,
            None => false,
        };
        if hit {
            return Some(i as u32);
        }
        i += 1;
    }
    None
}

} // verus!
