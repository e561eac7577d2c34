//! Merging imported schema files into a root schema, and the checks made
//! while imports are followed.
use vstd::prelude::*;
use crate::error::RunnerError;
use crate::graph::{copy_names, contains_name};
use crate::schema::{keys_of, names, Schema};

verus! {

impl Schema {
    /// Each collection is keyed by distinct names.
    pub open spec fn wf(&self) -> bool {
        keys_of(self.env@).no_duplicates() && keys_of(self.requests@).no_duplicates()
            && keys_of(self.calls@).no_duplicates() && self.env_origins@.len() == self.env@.len()
            && self.request_origins@.len() == self.requests@.len() && self.call_origins@.len()
            == self.calls@.len()
    }

    /// Whether each collection is keyed by distinct names and has a
    /// declaring file for each entry.
    pub fn is_well_formed(&self) -> (r: bool)
        ensures
            r == self.wf(),
    {
        distinct_keys(&self.env) && distinct_keys(&self.requests) && distinct_keys(&self.calls)
            && self.env_origins.len() == self.env.len() && self.request_origins.len()
            == self.requests.len() && self.call_origins.len() == self.calls.len()
    }
}

/// Whether no two entries share a key.
pub fn distinct_keys<T>(s: &Vec<(String, T)>) -> (r: bool)
    ensures
        r == keys_of(s@).no_duplicates(),
{
    let ghost k = keys_of(s@);
    let mut i: usize = 0;
    while i < s.len()
        invariant
            i <= s@.len(),
            k == keys_of(s@),
            forall|a: int, b: int| 0 <= a < b < s@.len() && a < i ==> k[a] != k[b],
        decreases s@.len() - i,
    {
        let mut j: usize = i + 1;
        while j < s.len()
            invariant
                i < j <= s@.len(),
                k == keys_of(s@),
                forall|a: int, b: int| 0 <= a < b < s@.len() && a < i ==> k[a] != k[b],
                forall|b: int| i < b < j ==> k[i as int] != k[b],
            decreases s@.len() - j,
        {
            if s[i].0 == s[j].0 {
                proof {
                    assert(k[i as int] == k[j as int]);
                }
                return false;
            }
            j = j + 1;
        }
        i = i + 1;
    }
    true
}

/// Some key of `b` is also a key of `a`.
pub open spec fn keys_meet<T>(a: Seq<(String, T)>, b: Seq<(String, T)>) -> bool {
    exists|i: int| 0 <= i < b.len() && keys_of(a).contains(#[trigger] b[i].0@)
}

/// Merging `imported` into `root` would redeclare a variable, a request or
/// a call sequence.
pub open spec fn has_conflict(root: Schema, imported: Schema) -> bool {
    keys_meet(root.env@, imported.env@) || keys_meet(root.requests@, imported.requests@)
        || keys_meet(root.calls@, imported.calls@)
}

/// In one collection, `root` declares `key` in the file `existing` and
/// `imported` declares it in the file `incoming`.
pub open spec fn declared_at<T>(
    a: Seq<(String, T)>,
    a_origins: Seq<String>,
    b: Seq<(String, T)>,
    b_origins: Seq<String>,
    key: Seq<char>,
    existing: Seq<char>,
    incoming: Seq<char>,
) -> bool {
    exists|j: int, i: int|
        0 <= j < a.len() && 0 <= i < b.len() && #[trigger] a[j].0@ == key && #[trigger] b[i].0@
            == key && a_origins[j]@ == existing && b_origins[i]@ == incoming
}

/// `key` is declared by both schemas in one collection, by the files
/// `existing` (in `root`) and `incoming` (in `imported`).
pub open spec fn conflict_between(
    root: Schema,
    imported: Schema,
    key: Seq<char>,
    existing: Seq<char>,
    incoming: Seq<char>,
) -> bool {
    declared_at(root.env@, root.env_origins@, imported.env@, imported.env_origins@, key, existing, incoming)
        || declared_at(root.requests@, root.request_origins@, imported.requests@, imported.request_origins@, key, existing, incoming)
        || declared_at(root.calls@, root.call_origins@, imported.calls@, imported.call_origins@, key, existing, incoming)
}

/// `key` names a variable, a request or a call sequence of both schemas.
pub open spec fn declared_in_both(root: Schema, imported: Schema, key: Seq<char>) -> bool {
    (keys_of(root.env@).contains(key) && keys_of(imported.env@).contains(key)) || (keys_of(
        root.requests@,
    ).contains(key) && keys_of(imported.requests@).contains(key)) || (keys_of(
        root.calls@,
    ).contains(key) && keys_of(imported.calls@).contains(key))
}

/// What a successful merge leaves: each collection of `imported` appended to
/// that of `root`, everything else of `root` kept.
pub open spec fn merged(root: Schema, imported: Schema, out: Schema) -> bool {
    out.env@ == root.env@ + imported.env@ && out.requests@ == root.requests@
        + imported.requests@ && out.calls@ == root.calls@ + imported.calls@ && out.filename
        == root.filename && out.imports == root.imports && out.project == root.project
        && out.env_origins@ == root.env_origins@ + imported.env_origins@ && out.request_origins@
        == root.request_origins@ + imported.request_origins@ && out.call_origins@
        == root.call_origins@ + imported.call_origins@
}

/// The keys of `a + b` are those of `a`, then those of `b`.
pub proof fn lemma_keys_concat<T>(a: Seq<(String, T)>, b: Seq<(String, T)>)
    ensures
        keys_of(a + b) == keys_of(a) + keys_of(b),
{
    assert(keys_of(a + b) =~= keys_of(a) + keys_of(b));
}

/// Two keyed sequences with distinct keys, none shared, concatenate to one
/// with distinct keys.
pub proof fn lemma_disjoint_concat_distinct<T>(a: Seq<(String, T)>, b: Seq<(String, T)>)
    requires
        keys_of(a).no_duplicates(),
        keys_of(b).no_duplicates(),
        !keys_meet(a, b),
    ensures
        keys_of(a + b).no_duplicates(),
{
    lemma_keys_concat(a, b);
    let ka = keys_of(a);
    let kb = keys_of(b);
    assert forall|i: int, j: int|
        0 <= i < (ka + kb).len() && 0 <= j < (ka + kb).len() && i != j implies (ka + kb)[i] != (
        ka + kb)[j] by {
        if i < ka.len() && j >= ka.len() {
            assert(kb[j - ka.len()] == b[j - ka.len()].0@);
            if ka[i] == kb[j - ka.len()] {
                assert(ka.contains(b[j - ka.len()].0@));
            }
        } else if j < ka.len() && i >= ka.len() {
            assert(kb[i - ka.len()] == b[i - ka.len()].0@);
            if ka[j] == kb[i - ka.len()] {
                assert(ka.contains(b[i - ka.len()].0@));
            }
        }
    }
}

/// The position in `b` of the first key that `a` also carries.
fn first_shared_key<T>(a: &Vec<(String, T)>, b: &Vec<(String, T)>) -> (r: Option<(usize, usize)>)
    ensures
        r is None <==> !keys_meet(a@, b@),
        r matches Some(p) ==> p.0 < b@.len() && p.1 < a@.len() && a@[p.1 as int].0@ == b@[p.0 as int].0@,
{
    let mut i: usize = 0;
    while i < b.len()
        invariant
            i <= b@.len(),
            forall|k: int| 0 <= k < i ==> !keys_of(a@).contains(#[trigger] b@[k].0@),
        decreases b@.len() - i,
    {
        let mut j: usize = 0;
        while j < a.len()
            invariant
                i < b@.len(),
                j <= a@.len(),
                forall|k: int| 0 <= k < j ==> a@[k].0@ != b@[i as int].0@,
            decreases a@.len() - j,
        {
            if a[j].0 == b[i].0 {
                proof {
                    assert(keys_of(a@)[j as int] == b@[i as int].0@);
                }
                return Some((i, j));
            }
            j = j + 1;
        }
        proof {
            if keys_of(a@).contains(b@[i as int].0@) {
                let k = choose|k: int| 0 <= k < keys_of(a@).len() && keys_of(a@)[k] == b@[i as int].0@;
                assert(a@[k].0@ == b@[i as int].0@);
            }
        }
        i = i + 1;
    }
    None
}

fn conflict_error(kind: &str, key: &String, existing: &String, incoming: &String) -> (r: RunnerError)
    ensures
        r matches RunnerError::NameConflict { kind: k, key: n, existing: x, incoming: y } && k@
            == kind@ && n@ == key@ && x == *existing && y == *incoming,
{
    RunnerError::NameConflict {
        kind: kind.to_owned(),
        key: key.clone(),
        existing: existing.clone(),
        incoming: incoming.clone(),
    }
}

/// Appends the variables, requests and call sequences of `imported` to
/// `root`, with their declaring files. A name that both declare is a
/// conflict: `root` is then left as it was and the error names the key and
/// the two files that declare it.
pub fn merge_schema(root: &mut Schema, imported: Schema) -> (r: Result<(), RunnerError>)
    requires
        old(root).wf(),
        imported.wf(),
    ensures
        r is Ok <==> !has_conflict(*old(root), imported),
        r is Ok ==> merged(*old(root), imported, *final(root)) && final(root).wf(),
        r is Err ==> *final(root) == *old(root),
        r matches Err(e) ==> e matches RunnerError::NameConflict { key, existing, incoming, .. }
            && conflict_between(*old(root), imported, key@, existing@, incoming@),
{
    if let Some((i, j)) = first_shared_key(&root.env, &imported.env) {
        return Err(
            conflict_error("env", &imported.env[i].0, &root.env_origins[j], &imported.env_origins[i]),
        );
    }
    if let Some((i, j)) = first_shared_key(&root.requests, &imported.requests) {
        return Err(
            conflict_error(
                "request",
                &imported.requests[i].0,
                &root.request_origins[j],
                &imported.request_origins[i],
            ),
        );
    }
    if let Some((i, j)) = first_shared_key(&root.calls, &imported.calls) {
        return Err(
            conflict_error("call", &imported.calls[i].0, &root.call_origins[j], &imported.call_origins[i]),
        );
    }
    proof {
        lemma_disjoint_concat_distinct(root.env@, imported.env@);
        lemma_disjoint_concat_distinct(root.requests@, imported.requests@);
        lemma_disjoint_concat_distinct(root.calls@, imported.calls@);
    }
    let Schema {
        env: mut env,
        requests: mut requests,
        calls: mut calls,
        env_origins: mut env_origins,
        request_origins: mut request_origins,
        call_origins: mut call_origins,
        ..
    } = imported;
    root.env.append(&mut env);
    root.requests.append(&mut requests);
    root.calls.append(&mut calls);
    root.env_origins.append(&mut env_origins);
    root.request_origins.append(&mut request_origins);
    root.call_origins.append(&mut call_origins);
    Ok(())
}

/// Only the root file may describe the project.
pub fn check_project_placement(schema: &Schema, is_root: bool) -> (r: Result<(), RunnerError>)
    ensures
        r is Err <==> !is_root && schema.project is Some,
        r matches Err(e) ==> e matches RunnerError::MisplacedProjectDefinition { file }
            && file@ == schema.filename@,
{
    if !is_root && schema.project.is_some() {
        return Err(RunnerError::MisplacedProjectDefinition { file: schema.filename.clone() });
    }
    Ok(())
}

/// A project file must describe the project.
pub fn check_project_present(schema: &Schema, as_project: bool) -> (r: Result<(), RunnerError>)
    ensures
        r is Err <==> as_project && schema.project is None,
        r matches Err(e) ==> e matches RunnerError::MissingProjectDefinition { file }
            && file@ == schema.filename@,
{
    if as_project && schema.project.is_none() {
        return Err(RunnerError::MissingProjectDefinition { file: schema.filename.clone() });
    }
    Ok(())
}

/// Entering the file `path` while the files `active` are being imported:
/// a file already among them closes a cycle.
pub fn check_import_cycle(active: &Vec<String>, path: &String) -> (r: Result<(), RunnerError>)
    ensures
        r is Err <==> names(active@).contains(path@),
        r matches Err(e) ==> e matches RunnerError::ImportCycle { trace } && names(trace@)
            == names(active@).push(path@),
{
    if contains_name(active, path) {
        let mut trace = copy_names(active);
        let ghost before = trace@;
        let c = path.clone();
        trace.push(c);
        proof {
            assert(names(trace@) =~= names(before).push(path@));
        }
        return Err(RunnerError::ImportCycle { trace });
    }
    Ok(())
}

/// Schemas whose keys are pairwise disjoint merge without conflict, and each
/// merged collection is as large as the two together.
pub proof fn law_disjoint_merge_is_union(root: Schema, imported: Schema, out: Schema)
    requires
        root.wf(),
        imported.wf(),
        !keys_meet(root.env@, imported.env@),
        !keys_meet(root.requests@, imported.requests@),
        !keys_meet(root.calls@, imported.calls@),
        merged(root, imported, out),
    ensures
        !has_conflict(root, imported),
        out.wf(),
        out.env@.len() == root.env@.len() + imported.env@.len(),
        out.requests@.len() == root.requests@.len() + imported.requests@.len(),
        out.calls@.len() == root.calls@.len() + imported.calls@.len(),
{
    lemma_disjoint_concat_distinct(root.env@, imported.env@);
    lemma_disjoint_concat_distinct(root.requests@, imported.requests@);
    lemma_disjoint_concat_distinct(root.calls@, imported.calls@);
}

/// A variable, request or call sequence that two schemas both declare is a
/// conflict, whichever of the three it is.
pub proof fn law_shared_name_conflicts(root: Schema, imported: Schema, key: Seq<char>)
    requires
        declared_in_both(root, imported, key),
    ensures
        has_conflict(root, imported),
{
    if keys_of(root.env@).contains(key) && keys_of(imported.env@).contains(key) {
        let i = choose|i: int| 0 <= i < keys_of(imported.env@).len() && keys_of(imported.env@)[i] == key;
        assert(keys_of(root.env@).contains(imported.env@[i].0@));
    } else if keys_of(root.requests@).contains(key) && keys_of(imported.requests@).contains(key) {
        let i = choose|i: int|
            0 <= i < keys_of(imported.requests@).len() && keys_of(imported.requests@)[i] == key;
        assert(keys_of(root.requests@).contains(imported.requests@[i].0@));
    } else {
        let i = choose|i: int| 0 <= i < keys_of(imported.calls@).len() && keys_of(imported.calls@)[i] == key;
        assert(keys_of(root.calls@).contains(imported.calls@[i].0@));
    }
}

} // verus!
