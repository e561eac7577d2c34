//! Dependency ordering of requests: depth-first traversal with cycle
//! detection, and call queues built from it.
use vstd::prelude::*;
use crate::error::RunnerError;
use crate::schema::{find_entry, find_in, keys_of, names, Request};
use vstd::seq_lib::seq_to_set_is_finite;
use vstd::set::axiom_set_remove_len;

verus! {

/// The outcome of a traversal, over names.
pub enum Traversal {
    /// The names in visiting order: a request, then the full traversal of
    /// each of its dependencies in declared order.
    Stack(Seq<Seq<char>>),
    /// The ancestors entered so far, and the name met again below them.
    Cycle(Seq<Seq<char>>, Seq<char>),
    /// A name that no request carries.
    Missing(Seq<char>),
}

pub open spec fn deps_of(r: Request) -> Seq<Seq<char>> {
    match r.config {
        Some(c) => names(c.depends_on@),
        None => Seq::empty(),
    }
}

/// The number of request names not yet among the ancestors `trace`.
pub open spec fn unvisited(g: Seq<(String, Request)>, trace: Seq<Seq<char>>) -> nat {
    keys_of(g).to_set().difference(trace.to_set()).len()
}

/// Depth-first traversal from `name` below the ancestors `trace`.
pub open spec fn traverse(
    g: Seq<(String, Request)>,
    name: Seq<char>,
    trace: Seq<Seq<char>>,
) -> Traversal
    decreases unvisited(g, trace), 1int, 0int,
    via traverse_decreases
{
    if trace.contains(name) {
        Traversal::Cycle(trace, name)
    } else {
        match find_entry(g, name) {
            None => Traversal::Missing(name),
            Some(r) => match traverse_deps(g, deps_of(r), trace.push(name)) {
                Traversal::Stack(s) => Traversal::Stack(seq![name] + s),
                other => other,
            },
        }
    }
}

#[via_fn]
proof fn traverse_decreases(g: Seq<(String, Request)>, name: Seq<char>, trace: Seq<Seq<char>>) {
    if !trace.contains(name) && find_entry(g, name) is Some {
        lemma_entering_shrinks(g, name, trace);
    }
}

proof fn lemma_found_is_key<T>(s: Seq<(String, T)>, name: Seq<char>)
    requires
        find_entry(s, name) is Some,
    ensures
        keys_of(s).contains(name),
    decreases s.len(),
{
    if s[0].0@ == name {
        assert(keys_of(s)[0] == name);
    } else {
        lemma_found_is_key(s.drop_first(), name);
        let k = choose|k: int|
            0 <= k < keys_of(s.drop_first()).len() && keys_of(s.drop_first())[k] == name;
        assert(keys_of(s)[k + 1] == name);
    }
}

/// Entering a request that is not yet an ancestor leaves one name fewer
/// to enter.
proof fn lemma_entering_shrinks(g: Seq<(String, Request)>, name: Seq<char>, trace: Seq<Seq<char>>)
    requires
        !trace.contains(name),
        find_entry(g, name) is Some,
    ensures
        unvisited(g, trace.push(name)) + 1 == unvisited(g, trace),
{
    lemma_found_is_key(g, name);
    let k = keys_of(g).to_set();
    let d = k.difference(trace.to_set());
    seq_to_set_is_finite(keys_of(g));
    assert(d.finite());
    assert(k.contains(name));
    assert(d.contains(name));
    assert(trace.push(name).to_set() =~= trace.to_set().insert(name)) by {
        assert forall|x: Seq<char>| trace.push(name).to_set().contains(x) implies trace.to_set().insert(
            name,
        ).contains(x) by {
            let i = choose|i: int| 0 <= i < trace.push(name).len() && trace.push(name)[i] == x;
            if i < trace.len() {
                assert(trace[i] == x);
            }
        }
        assert forall|x: Seq<char>| trace.to_set().insert(name).contains(x) implies trace.push(
            name,
        ).to_set().contains(x) by {
            if x == name {
                assert(trace.push(name)[trace.len() as int] == x);
            } else {
                let i = choose|i: int| 0 <= i < trace.len() && trace[i] == x;
                assert(trace.push(name)[i] == x);
            }
        }
    }
    assert(k.difference(trace.push(name).to_set()) =~= d.remove(name));
    axiom_set_remove_len(d, name);
}

/// The traversals of `ds` in order, concatenated; the first failure wins.
pub open spec fn traverse_deps(
    g: Seq<(String, Request)>,
    ds: Seq<Seq<char>>,
    trace: Seq<Seq<char>>,
) -> Traversal
    decreases unvisited(g, trace) + 1, 0int, ds.len(),
{
    if ds.len() == 0 {
        Traversal::Stack(Seq::empty())
    } else {
        match traverse_deps(g, ds.drop_last(), trace) {
            Traversal::Stack(a) => match traverse(g, ds.last(), trace) {
                Traversal::Stack(b) => Traversal::Stack(a + b),
                other => other,
            },
            other => other,
        }
    }
}

/// `r` is the executable form of the traversal outcome `t`.
pub open spec fn traversal_result(r: Result<Vec<String>, RunnerError>, t: Traversal) -> bool {
    match t {
        Traversal::Stack(s) => r matches Ok(v) && names(v@) == s,
        Traversal::Cycle(tr, n) => r matches Err(RunnerError::CircularDependency { trace, name })
            && names(trace@) == tr && name@ == n,
        Traversal::Missing(n) => r matches Err(RunnerError::RequestNotFound { name }) && name@
            == n,
    }
}

pub(crate) fn contains_name(v: &Vec<String>, name: &String) -> (r: bool)
    ensures
        r == names(v@).contains(name@),
{
    let mut i: usize = 0;
    while i < v.len()
        invariant
            i <= v@.len(),
            forall|k: int| 0 <= k < i ==> v@[k]@ != name@,
        decreases v@.len() - i,
    {
        if v[i] == *name {
            proof {
                assert(names(v@)[i as int] == name@);
            }
            return true;
        }
        i = i + 1;
    }
    proof {
        if names(v@).contains(name@) {
            let k = choose|k: int| 0 <= k < names(v@).len() && names(v@)[k] == name@;
            assert(v@[k]@ == name@);
        }
    }
    false
}

pub(crate) fn copy_names(v: &Vec<String>) -> (r: Vec<String>)
    ensures
        names(r@) == names(v@),
{
    let mut out: Vec<String> = Vec::new();
    let mut i: usize = 0;
    while i < v.len()
        invariant
            i <= v@.len(),
            names(out@) == names(v@.subrange(0, i as int)),
        decreases v@.len() - i,
    {
        let ghost prev = out@;
        let c = v[i].clone();
        out.push(c);
        proof {
            assert(out@ == prev.push(c));
            assert(names(v@.subrange(0, i + 1)) =~= names(v@.subrange(0, i as int)).push(v@[i as int]@));
            assert(names(out@) =~= names(prev).push(c@));
        }
        i = i + 1;
    }
    proof {
        assert(v@.subrange(0, v@.len() as int) =~= v@);
    }
    out
}

/// Visits `name` below the ancestors `trace`: the request itself, then the
/// full traversal of each dependency in declared order.
pub(crate) fn traverse_request_stack(
    requests: &Vec<(String, Request)>,
    name: &String,
    trace: &Vec<String>,
) -> (r: Result<Vec<String>, RunnerError>)
    ensures
        traversal_result(r, traverse(requests@, name@, names(trace@))),
    decreases unvisited(requests@, names(trace@)), 1int,
{
    let ghost g = requests@;
    if contains_name(trace, name) {
        return Err(RunnerError::CircularDependency { trace: copy_names(trace), name: name.clone() });
    }
    let request = match find_in(requests, name) {
        Some(r) => r,
        None => {
            return Err(RunnerError::RequestNotFound { name: name.clone() });
        },
    };
    let mut below = copy_names(trace);
    below.push(name.clone());
    let ghost t2 = names(below@);
    proof {
        assert(t2 =~= names(trace@).push(name@));
        lemma_entering_shrinks(g, name@, names(trace@));
    }
    let ghost ds = deps_of(*request);
    let empty: Vec<String> = Vec::new();
    let deps: &Vec<String> = match &request.config {
        Some(c) => &c.depends_on,
        None => &empty,
    };
    proof {
        assert(names(deps@) == ds);
    }
    let mut stack: Vec<String> = Vec::new();
    stack.push(name.clone());
    let mut i: usize = 0;
    proof {
        assert(ds.subrange(0, 0) =~= Seq::<Seq<char>>::empty());
        assert(names(stack@) =~= seq![name@] + Seq::<Seq<char>>::empty());
    }
    while i < deps.len()
        invariant
            i <= deps@.len(),
            names(deps@) == ds,
            t2 == names(below@),
            unvisited(g, t2) < unvisited(g, names(trace@)),
            t2 == names(trace@).push(name@),
            !names(trace@).contains(name@),
            find_entry(g, name@) == Some(*request),
            ds == deps_of(*request),
            requests@ == g,
            traverse_deps(g, ds.subrange(0, i as int), t2) matches Traversal::Stack(a) && names(
                stack@,
            ) == seq![name@] + a,
        decreases deps@.len() - i,
    {
        proof {
            assert(ds.subrange(0, i + 1).drop_last() =~= ds.subrange(0, i as int));
            assert(ds.subrange(0, i + 1).last() == deps@[i as int]@);
        }
        let sub = traverse_request_stack(requests, &deps[i], &below);
        match sub {
            Ok(items) => {
                let ghost before = names(stack@);
                let mut k: usize = 0;
                while k < items.len()
                    invariant
                        k <= items@.len(),
                        names(stack@) == before + names(items@).subrange(0, k as int),
                    decreases items@.len() - k,
                {
                    let ghost prev = stack@;
                    let c = items[k].clone();
                    stack.push(c);
                    proof {
                        assert(stack@ == prev.push(c));
                        assert(names(stack@) =~= names(prev).push(c@));
                        assert(names(items@).subrange(0, k + 1) =~= names(items@).subrange(0, k as int).push(c@));
                        assert(names(stack@) =~= before + names(items@).subrange(0, k + 1));
                    }
                    k = k + 1;
                }
                proof {
                    assert(names(items@).subrange(0, items@.len() as int) =~= names(items@));
                    let a = traverse_deps(g, ds.subrange(0, i as int), t2)->Stack_0;
                    assert(seq![name@] + a + names(items@) =~= seq![name@] + (a + names(items@)));
                }
            },
            Err(e) => {
                proof {
                    let t = traverse(g, deps@[i as int]@, t2);
                    assert(!(t is Stack));
                    assert(traverse_deps(g, ds.subrange(0, i + 1), t2) == t);
                    lemma_deps_failure_extends(g, ds, i as int + 1, t2);
                    assert(traverse_deps(g, ds, t2) == t);
                    assert(names(trace@).push(name@) == t2);
                }
                return Err(e);
            },
        }
        i = i + 1;
    }
    proof {
        assert(ds.subrange(0, deps@.len() as int) =~= ds);
    }
    Ok(stack)
}

proof fn lemma_deps_failure_extends(
    g: Seq<(String, Request)>,
    ds: Seq<Seq<char>>,
    k: int,
    trace: Seq<Seq<char>>,
)
    requires
        0 <= k <= ds.len(),
        !(traverse_deps(g, ds.subrange(0, k), trace) is Stack),
    ensures
        traverse_deps(g, ds, trace) == traverse_deps(g, ds.subrange(0, k), trace),
    decreases ds.len() - k,
{
    if k < ds.len() {
        assert(ds.subrange(0, k + 1).drop_last() =~= ds.subrange(0, k));
        lemma_deps_failure_extends(g, ds, k + 1, trace);
    } else {
        assert(ds.subrange(0, k) =~= ds);
    }
}

/// Keeps the first occurrence of each name.
pub open spec fn dedup_first(s: Seq<Seq<char>>) -> Seq<Seq<char>>
    decreases s.len(),
{
    if s.len() == 0 {
        Seq::empty()
    } else {
        let p = dedup_first(s.drop_last());
        if p.contains(s.last()) {
            p
        } else {
            p.push(s.last())
        }
    }
}

/// The call queue of `name`: its traversal reversed, each name kept at its
/// first occurrence.
pub open spec fn call_queue(g: Seq<(String, Request)>, name: Seq<char>) -> Traversal {
    match traverse(g, name, Seq::empty()) {
        Traversal::Stack(s) => Traversal::Stack(dedup_first(s.reverse())),
        other => other,
    }
}

/// Deduplication keeps every name once and adds none.
pub proof fn lemma_dedup_first(s: Seq<Seq<char>>)
    ensures
        dedup_first(s).no_duplicates(),
        forall|x: Seq<char>| dedup_first(s).contains(x) <==> s.contains(x),
    decreases s.len(),
{
    if s.len() > 0 {
        let d = s.drop_last();
        lemma_dedup_first(d);
        let p = dedup_first(d);
        let l = s.last();
        assert forall|x: Seq<char>| dedup_first(s).contains(x) <==> s.contains(x) by {
            if s.contains(x) {
                if x == l {
                    if !p.contains(l) {
                        assert(p.push(l)[p.len() as int] == x);
                    }
                } else {
                    let k = choose|k: int| 0 <= k < s.len() && s[k] == x;
                    assert(d[k] == x);
                    assert(d.contains(x));
                    assert(p.contains(x));
                    let k2 = choose|k2: int| 0 <= k2 < p.len() && p[k2] == x;
                    assert(p.push(l)[k2] == x);
                }
            }
            if dedup_first(s).contains(x) {
                if x == l {
                    assert(s[s.len() - 1] == x);
                } else {
                    let k = choose|k: int|
                        0 <= k < dedup_first(s).len() && dedup_first(s)[k] == x;
                    if p.contains(l) {
                        assert(p[k] == x);
                    } else {
                        assert(p.push(l)[k] == x);
                        assert(p[k] == x);
                    }
                    assert(p.contains(x));
                    assert(d.contains(x));
                    let k2 = choose|k2: int| 0 <= k2 < d.len() && d[k2] == x;
                    assert(s[k2] == x);
                }
            }
        }
    }
}

/// The call queue of the request `name`: every dependency comes before the
/// requests that need it, and each name once, at its first need.
pub fn generate_call_queue(requests: &Vec<(String, Request)>, name: &String) -> (r: Result<
    Vec<String>,
    RunnerError,
>)
    ensures
        traversal_result(r, call_queue(requests@, name@)),
        r matches Ok(v) ==> names(v@).no_duplicates(),
        r matches Ok(v) ==> deps_before(requests@, names(v@)),
        r matches Ok(v) ==> (traverse(requests@, name@, Seq::empty()) matches Traversal::Stack(
            raw,
        ) && forall|x: Seq<char>| names(v@).contains(x) <==> raw.contains(x)),
{
    let empty: Vec<String> = Vec::new();
    proof {
        assert(names(empty@) =~= Seq::<Seq<char>>::empty());
    }
    let raw = traverse_request_stack(requests, name, &empty)?;
    let ghost rs = names(raw@).reverse();
    let mut out: Vec<String> = Vec::new();
    let mut j: usize = 0;
    proof {
        assert(rs.subrange(0, 0) =~= Seq::<Seq<char>>::empty());
        assert(names(out@) =~= Seq::<Seq<char>>::empty());
    }
    while j < raw.len()
        invariant
            j <= raw@.len(),
            rs == names(raw@).reverse(),
            names(out@) == dedup_first(rs.subrange(0, j as int)),
        decreases raw@.len() - j,
    {
        let item = &raw[raw.len() - 1 - j];
        proof {
            assert(rs.subrange(0, j + 1).drop_last() =~= rs.subrange(0, j as int));
            assert(rs.subrange(0, j + 1).last() == item@);
        }
        if !contains_name(&out, item) {
            let ghost prev = out@;
            let c = item.clone();
            out.push(c);
            proof {
                assert(out@ == prev.push(c));
                assert(names(out@) =~= names(prev).push(c@));
            }
        }
        j = j + 1;
    }
    proof {
        assert(rs.subrange(0, raw@.len() as int) =~= rs);
        lemma_dedup_first(rs);
        assert forall|x: Seq<char>| rs.contains(x) <==> names(raw@).contains(x) by {
            if rs.contains(x) {
                let k = choose|k: int| 0 <= k < rs.len() && rs[k] == x;
                assert(names(raw@)[rs.len() - 1 - k] == x);
            }
            if names(raw@).contains(x) {
                let k = choose|k: int| 0 <= k < names(raw@).len() && names(raw@)[k] == x;
                assert(rs[rs.len() - 1 - k] == x);
            }
        }
        assert(names(out@) == dedup_first(rs));
        law_call_queue_orders_dependencies(requests@, name@);
        assert forall|x: Seq<char>| names(out@).contains(x) <==> names(raw@).contains(x) by {
            assert(dedup_first(rs).contains(x) <==> rs.contains(x));
        }
    }
    Ok(out)
}

/// `v` is the queue that the traversal outcome `t` gives.
pub open spec fn member_queue_ok(v: Vec<String>, t: Traversal) -> bool {
    t matches Traversal::Stack(s) && names(v@) == s
}

/// One independent call queue per member of the call sequence `name`, in the
/// sequence's order. Members that share a dependency each list it.
pub fn generate_sequence_queue(
    requests: &Vec<(String, Request)>,
    calls: &Vec<(String, Vec<String>)>,
    name: &String,
) -> (r: Result<Vec<Vec<String>>, RunnerError>)
    ensures
        match find_entry(calls@, name@) {
            None => r matches Err(RunnerError::SequenceNotFound { name: n }) && n@ == name@,
            Some(members) => match r {
                Ok(v) => v@.len() == members@.len() && forall|i: int|
                    0 <= i < v@.len() ==> member_queue_ok(
                        #[trigger] v@[i],
                        call_queue(requests@, members@[i]@),
                    ),
                Err(e) => exists|i: int|
                    0 <= i < members@.len() && (forall|k: int|
                        0 <= k < i ==> #[trigger] call_queue(requests@, members@[k]@) is Stack)
                        && traversal_result(Err(e), call_queue(requests@, members@[i]@)),
            },
        },
{
    let members = match find_in(calls, name) {
        Some(m) => m,
        None => {
            return Err(RunnerError::SequenceNotFound { name: name.clone() });
        },
    };
    let mut out: Vec<Vec<String>> = Vec::new();
    let mut i: usize = 0;
    while i < members.len()
        invariant
            i <= members@.len(),
            out@.len() == i,
            find_entry(calls@, name@) == Some(*members),
            forall|k: int|
                0 <= k < i ==> member_queue_ok(
                    #[trigger] out@[k],
                    call_queue(requests@, members@[k]@),
                ),
        decreases members@.len() - i,
    {
        match generate_call_queue(requests, &members[i]) {
            Ok(q) => {
                out.push(q);
            },
            Err(e) => {
                proof {
                    assert forall|k: int| 0 <= k < i implies #[trigger] call_queue(
                        requests@,
                        members@[k]@,
                    ) is Stack by {
                        assert(member_queue_ok(out@[k], call_queue(requests@, members@[k]@)));
                    }
                    let ii = i as int;
                    assert(traversal_result(Err(e), call_queue(requests@, members@[ii]@)));
                    assert(0 <= ii < members@.len() && (forall|k: int|
                        0 <= k < ii ==> #[trigger] call_queue(requests@, members@[k]@) is Stack)
                        && traversal_result(Err(e), call_queue(requests@, members@[ii]@)));
                }
                return Err(e);
            },
        }
        i = i + 1;
    }
    Ok(out)
}

/// The request `x` declares a dependency on `d`.
pub open spec fn needs(g: Seq<(String, Request)>, x: Seq<char>, d: Seq<char>) -> bool {
    find_entry(g, x) matches Some(r) && deps_of(r).contains(d)
}

/// Every dependency of an element of `s` occurs later in `s`.
pub open spec fn deps_after(g: Seq<(String, Request)>, s: Seq<Seq<char>>) -> bool {
    forall|i: int, d: Seq<char>|
        0 <= i < s.len() && #[trigger] needs(g, s[i], d) ==> exists|j: int|
            i < j < s.len() && s[j] == d
}

/// Every dependency of an element of `s` occurs earlier in `s`.
pub open spec fn deps_before(g: Seq<(String, Request)>, s: Seq<Seq<char>>) -> bool {
    forall|i: int, d: Seq<char>|
        0 <= i < s.len() && #[trigger] needs(g, s[i], d) ==> exists|j: int|
            0 <= j < i && s[j] == d
}

proof fn lemma_traverse_order(g: Seq<(String, Request)>, name: Seq<char>, trace: Seq<Seq<char>>)
    ensures
        traverse(g, name, trace) matches Traversal::Stack(s) ==> s.len() > 0 && s[0] == name
            && deps_after(g, s),
    decreases unvisited(g, trace), 1int, 0int,
{
    if !trace.contains(name) && find_entry(g, name) is Some {
        let r = find_entry(g, name)->0;
        lemma_entering_shrinks(g, name, trace);
        let t2 = trace.push(name);
        lemma_traverse_deps_order(g, deps_of(r), t2);
        if let Traversal::Stack(sd) = traverse_deps(g, deps_of(r), t2) {
            let s = seq![name] + sd;
            assert forall|i: int, d: Seq<char>|
                0 <= i < s.len() && #[trigger] needs(g, s[i], d) implies exists|j: int|
                i < j < s.len() && s[j] == d by {
                if i == 0 {
                    assert(sd.contains(d));
                    let k = choose|k: int| 0 <= k < sd.len() && sd[k] == d;
                    assert(s[k + 1] == d);
                } else {
                    assert(s[i] == sd[i - 1]);
                    assert(needs(g, sd[i - 1], d));
                    let k = choose|k: int| i - 1 < k < sd.len() && sd[k] == d;
                    assert(s[k + 1] == d);
                }
            }
        }
    }
}

proof fn lemma_traverse_deps_order(
    g: Seq<(String, Request)>,
    ds: Seq<Seq<char>>,
    trace: Seq<Seq<char>>,
)
    ensures
        traverse_deps(g, ds, trace) matches Traversal::Stack(s) ==> deps_after(g, s) && forall|
            d: Seq<char>,
        | ds.contains(d) ==> s.contains(d),
    decreases unvisited(g, trace) + 1, 0int, ds.len(),
{
    if ds.len() > 0 {
        lemma_traverse_deps_order(g, ds.drop_last(), trace);
        lemma_traverse_order(g, ds.last(), trace);
        if let Traversal::Stack(a) = traverse_deps(g, ds.drop_last(), trace) {
            if let Traversal::Stack(b) = traverse(g, ds.last(), trace) {
                let s = a + b;
                assert forall|i: int, d: Seq<char>|
                    0 <= i < s.len() && #[trigger] needs(g, s[i], d) implies exists|j: int|
                    i < j < s.len() && s[j] == d by {
                    if i < a.len() {
                        assert(s[i] == a[i]);
                        assert(needs(g, a[i], d));
                        let k = choose|k: int| i < k < a.len() && a[k] == d;
                        assert(s[k] == d);
                    } else {
                        assert(s[i] == b[i - a.len()]);
                        assert(needs(g, b[i - a.len()], d));
                        let k = choose|k: int| i - a.len() < k < b.len() && b[k] == d;
                        assert(s[k + a.len()] == d);
                    }
                }
                assert forall|d: Seq<char>| ds.contains(d) implies s.contains(d) by {
                    let k = choose|k: int| 0 <= k < ds.len() && ds[k] == d;
                    if k < ds.len() - 1 {
                        assert(ds.drop_last()[k] == d);
                        assert(a.contains(d));
                        let m = choose|m: int| 0 <= m < a.len() && a[m] == d;
                        assert(s[m] == d);
                    } else {
                        assert(s[a.len() as int] == b[0]);
                    }
                }
            }
        }
    }
}

proof fn lemma_reverse_order(g: Seq<(String, Request)>, s: Seq<Seq<char>>)
    requires
        deps_after(g, s),
    ensures
        deps_before(g, s.reverse()),
{
    let r = s.reverse();
    assert forall|i: int, d: Seq<char>|
        0 <= i < r.len() && #[trigger] needs(g, r[i], d) implies exists|j: int|
        0 <= j < i && r[j] == d by {
        let si = s.len() - 1 - i;
        assert(r[i] == s[si]);
        assert(needs(g, s[si], d));
        let k = choose|k: int| si < k < s.len() && s[k] == d;
        assert(r[s.len() - 1 - k] == d);
    }
}

proof fn lemma_dedup_order(g: Seq<(String, Request)>, s: Seq<Seq<char>>)
    requires
        deps_before(g, s),
    ensures
        deps_before(g, dedup_first(s)),
    decreases s.len(),
{
    if s.len() > 0 {
        let d0 = s.drop_last();
        assert(deps_before(g, d0)) by {
            assert forall|i: int, d: Seq<char>|
                0 <= i < d0.len() && #[trigger] needs(g, d0[i], d) implies exists|j: int|
                0 <= j < i && d0[j] == d by {
                assert(d0[i] == s[i]);
                assert(needs(g, s[i], d));
                let k = choose|k: int| 0 <= k < i && s[k] == d;
                assert(d0[k] == d);
            }
        }
        lemma_dedup_order(g, d0);
        lemma_dedup_first(d0);
        let p = dedup_first(d0);
        let x = s.last();
        if !p.contains(x) {
            let q = p.push(x);
            assert forall|i: int, d: Seq<char>|
                0 <= i < q.len() && #[trigger] needs(g, q[i], d) implies exists|j: int|
                0 <= j < i && q[j] == d by {
                if i < p.len() {
                    assert(q[i] == p[i]);
                    assert(needs(g, p[i], d));
                    let k = choose|k: int| 0 <= k < i && p[k] == d;
                    assert(q[k] == d);
                } else {
                    assert(q[i] == s[s.len() - 1]);
                    assert(needs(g, s[s.len() - 1], d));
                    let k = choose|k: int| 0 <= k < s.len() - 1 && s[k] == d;
                    assert(d0[k] == d);
                    assert(d0.contains(d));
                    assert(p.contains(d));
                    let m = choose|m: int| 0 <= m < p.len() && p[m] == d;
                    assert(q[m] == d);
                }
            }
        }
    }
}

/// In a call queue every declared dependency of a request comes before it.
pub proof fn law_call_queue_orders_dependencies(g: Seq<(String, Request)>, name: Seq<char>)
    ensures
        call_queue(g, name) matches Traversal::Stack(q) ==> deps_before(g, q),
{
    lemma_traverse_order(g, name, Seq::empty());
    if let Traversal::Stack(s) = traverse(g, name, Seq::empty()) {
        lemma_reverse_order(g, s);
        lemma_dedup_order(g, s.reverse());
    }
}

/// Two requests that each depend only on the other form a cycle: the call
/// queue of either fails, with a trace of both names.
pub proof fn law_mutual_dependency_is_a_cycle(
    g: Seq<(String, Request)>,
    a: Seq<char>,
    b: Seq<char>,
)
    requires
        a != b,
        find_entry(g, a) matches Some(ra) && deps_of(ra) == seq![b],
        find_entry(g, b) matches Some(rb) && deps_of(rb) == seq![a],
    ensures
        call_queue(g, a) == Traversal::Cycle(seq![a, b], a),
{
    let e = Seq::<Seq<char>>::empty();
    let ta = e.push(a);
    let tab = ta.push(b);
    assert(ta =~= seq![a]);
    assert(tab =~= seq![a, b]);
    assert(tab.contains(a)) by {
        assert(tab[0] == a);
    }
    assert(!ta.contains(b)) by {
        if ta.contains(b) {
            let k = choose|k: int| 0 <= k < ta.len() && ta[k] == b;
            assert(ta[0] == a);
        }
    }
    assert(!e.contains(a));
    assert(traverse(g, a, tab) == Traversal::Cycle(tab, a));
    assert(seq![a].drop_last() =~= e);
    assert(seq![b].drop_last() =~= e);
    assert(traverse_deps(g, e, tab) == Traversal::Stack(e));
    assert(traverse_deps(g, seq![a], tab) == Traversal::Cycle(tab, a));
    assert(traverse(g, b, ta) == Traversal::Cycle(tab, a));
    assert(traverse_deps(g, e, ta) == Traversal::Stack(e));
    assert(traverse_deps(g, seq![b], ta) == Traversal::Cycle(tab, a));
    assert(traverse(g, a, e) == Traversal::Cycle(tab, a));
}

} // verus!
