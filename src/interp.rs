//! Strict interpolation of `{{name}}` references in templates and in
//! semi-structured values.
use vstd::prelude::*;
use crate::error::RunnerError;
use crate::value::{
    entry_models_of, env_lookup, env_model, lemma_entry_models_len, model_of, models_of, EnvModel,
    Value, ValueModel,
};

verus! {

broadcast use vstd::std_specs::vec::group_vec_axioms;

pub open spec fn is_open_at(t: Seq<char>, i: int) -> bool {
    0 <= i && i + 1 < t.len() && t[i] == '{' && t[i + 1] == '{'
}

pub open spec fn is_close_at(t: Seq<char>, i: int) -> bool {
    0 <= i && i + 1 < t.len() && t[i] == '}' && t[i + 1] == '}'
}

/// The first position at or after `i` where `}}` starts.
pub open spec fn close_from(t: Seq<char>, i: int) -> Option<int>
    decreases t.len() - i,
{
    if i < 0 || i + 1 >= t.len() {
        None
    } else if is_close_at(t, i) {
        Some(i)
    } else {
        close_from(t, i + 1)
    }
}

pub proof fn lemma_close_from_bounds(t: Seq<char>, i: int)
    ensures
        close_from(t, i) matches Some(j) ==> i <= j && is_close_at(t, j),
    decreases t.len() - i,
{
    if !(i < 0 || i + 1 >= t.len()) && !is_close_at(t, i) {
        lemma_close_from_bounds(t, i + 1);
    }
}

/// The text that a scalar contributes to a template.
pub open spec fn scalar_text(v: ValueModel) -> Option<Seq<char>> {
    match v {
        ValueModel::Null => Some(seq!['n', 'u', 'l', 'l']),
        ValueModel::Bool(b) => Some(
            if b {
                seq!['t', 'r', 'u', 'e']
            } else {
                seq!['f', 'a', 'l', 's', 'e']
            },
        ),
        ValueModel::Number(n) => Some(n),
        ValueModel::Str(s) => Some(s),
        _ => None,
    }
}

/// The rendering of `t` from position `i` on, or `None` where a reference is
/// unterminated, undefined or names a sequence or mapping.
pub open spec fn render_from(t: Seq<char>, i: int, env: EnvModel) -> Option<Seq<char>>
    decreases t.len() - i,
    via render_from_decreases
{
    if i < 0 || i >= t.len() {
        Some(Seq::empty())
    } else if is_open_at(t, i) {
        match close_from(t, i + 2) {
            None => None,
            Some(j) => match env_lookup(env, t.subrange(i + 2, j)) {
                None => None,
                Some(v) => match scalar_text(v) {
                    None => None,
                    Some(s) => match render_from(t, j + 2, env) {
                        None => None,
                        Some(r) => Some(s + r),
                    },
                },
            },
        }
    } else {
        match render_from(t, i + 1, env) {
            None => None,
            Some(r) => Some(seq![t[i]] + r),
        }
    }
}

#[via_fn]
proof fn render_from_decreases(t: Seq<char>, i: int, env: EnvModel) {
    lemma_close_from_bounds(t, i + 2);
}

/// Strict interpolation of a whole template.
pub open spec fn interpolate(t: Seq<char>, env: EnvModel) -> Option<Seq<char>> {
    render_from(t, 0, env)
}

pub open spec fn prefixed(p: Seq<char>, o: Option<Seq<char>>) -> Option<Seq<char>> {
    match o {
        None => None,
        Some(r) => Some(p + r),
    }
}

fn find_close(t: &str, from: usize) -> (r: Option<usize>)
    requires
        from <= t@.len(),
    ensures
        r == (match close_from(t@, from as int) {
            Some(j) => Some(j as usize),
            None => None::<usize>,
        }),
{
    let n = t.unicode_len();
    let mut j: usize = from;
    while n > 0 && j < n - 1
        invariant
            from <= j <= n,
            n == t@.len(),
            close_from(t@, from as int) == close_from(t@, j as int),
        decreases n - j,
    {
        if t.get_char(j) == '}' && t.get_char(j + 1) == '}' {
            return Some(j);
        }
        j = j + 1;
    }
    None
}

/// Looks `name` up in a resolved environment.
pub fn lookup<'a>(env: &'a Vec<(String, Value)>, name: &String) -> (r: Option<&'a Value>)
    ensures
        env_lookup(env_model(env@), name@) == (match r {
            Some(v) => Some(v@),
            None => None::<ValueModel>,
        }),
{
    proof {
        lemma_entry_models_len(env@);
        let m = env_model(env@);
        assert(m.subrange(0, m.len() as int) =~= m);
    }
    let mut i: usize = 0;
    while i < env.len()
        invariant
            i <= env@.len(),
            entry_models_of(env@).len() == env@.len(),
            forall|k: int|
                0 <= k < env@.len() ==> #[trigger] entry_models_of(env@)[k] == (
                env@[k].0@,
                model_of(env@[k].1),
            ),
            env_lookup(env_model(env@), name@) == env_lookup(
                env_model(env@).subrange(i as int, env@.len() as int),
                name@,
            ),
        decreases env@.len() - i,
    {
        proof {
            let m = env_model(env@);
            assert(m.subrange(i as int, m.len() as int).drop_first() =~= m.subrange(
                i + 1,
                m.len() as int,
            ));
        }
        if env[i].0 == *name {
            return Some(&env[i].1);
        }
        i = i + 1;
    }
    None
}

/// The text of a scalar value.
pub fn scalar_string(v: &Value) -> (r: Option<String>)
    ensures
        scalar_text(v@) == (match r {
            Some(s) => Some(s@),
            None => None::<Seq<char>>,
        }),
{
    proof {
        reveal_strlit("null");
        reveal_strlit("true");
        reveal_strlit("false");
    }
    match v {
        Value::Null => Some("null".to_owned()),
        Value::Bool(b) => {
            if *b {
                Some("true".to_owned())
            } else {
                Some("false".to_owned())
            }
        },
        Value::Number(n) => Some(n.clone()),
        Value::Str(s) => Some(s.clone()),
        _ => None,
    }
}

/// Replaces each `{{name}}` in `template` with the text of the variable
/// `name`; fails where a reference is unterminated, undefined or not a scalar.
pub fn interpolate_string(template: &str, env: &Vec<(String, Value)>) -> (r: Result<
    String,
    RunnerError,
>)
    ensures
        match r {
            Ok(s) => interpolate(template@, env_model(env@)) == Some(s@),
            Err(e) => interpolate(template@, env_model(env@)) is None
                && e is InterpolationError,
        },
{
    let ghost t = template@;
    let ghost m = env_model(env@);
    let n = template.unicode_len();
    let mut out = String::new();
    let mut i: usize = 0;
    while i < n
        invariant
            n == t.len(),
            t == template@,
            m == env_model(env@),
            i <= n,
            prefixed(out@, render_from(t, i as int, m)) == render_from(t, 0, m),
        decreases n - i,
    {
        if i + 1 < n && template.get_char(i) == '{' && template.get_char(i + 1) == '{' {
            let close = find_close(template, i + 2);
            proof {
                lemma_close_from_bounds(t, i + 2);
            }
            match close {
                None => {
                    return Err(RunnerError::InterpolationError { template: template.to_owned() });
                },
                Some(j) => {
                    let name = template.substring_char(i + 2, j).to_owned();
                    match lookup(env, &name) {
                        None => {
                            return Err(
                                RunnerError::InterpolationError { template: template.to_owned() },
                            );
                        },
                        Some(v) => match scalar_string(v) {
                            None => {
                                return Err(
                                    RunnerError::InterpolationError {
                                        template: template.to_owned(),
                                    },
                                );
                            },
                            Some(s) => {
                                let ghost before = out@;
                                out.append(s.as_str());
                                proof {
                                    match render_from(t, j + 2, m) {
                                        Some(r) => {
                                            assert(before + (s@ + r) =~= out@ + r);
                                        },
                                        None => {},
                                    }
                                }
                                i = j + 2;
                            },
                        },
                    }
                },
            }
        } else {
            let ghost before = out@;
            let c = template.substring_char(i, i + 1);
            out.append(c);
            proof {
                match render_from(t, i + 1, m) {
                    Some(r) => {
                        assert(before + (seq![t[i as int]] + r) =~= out@ + r);
                    },
                    None => {},
                }
            }
            i = i + 1;
        }
    }
    proof {
        assert(out@ + Seq::<char>::empty() =~= out@);
    }
    Ok(out)
}

/// The value with every string leaf interpolated; `None` where a leaf fails.
/// Structure, keys and other scalars stay as they are.
pub open spec fn interpolated(v: Value, env: EnvModel) -> Option<ValueModel>
    decreases v,
{
    match v {
        Value::Str(s) => match interpolate(s@, env) {
            Some(r) => Some(ValueModel::Str(r)),
            None => None,
        },
        Value::List(items) => match interpolated_list(items@, env) {
            Some(r) => Some(ValueModel::List(r)),
            None => None,
        },
        Value::Mapping(entries) => match interpolated_entries(entries@, env) {
            Some(r) => Some(ValueModel::Mapping(r)),
            None => None,
        },
        _ => Some(model_of(v)),
    }
}

pub open spec fn interpolated_list(s: Seq<Value>, env: EnvModel) -> Option<Seq<ValueModel>>
    decreases s,
{
    if s.len() == 0 {
        Some(Seq::empty())
    } else {
        match (interpolated_list(s.drop_last(), env), interpolated(s.last(), env)) {
            (Some(a), Some(b)) => Some(a.push(b)),
            _ => None,
        }
    }
}

pub open spec fn interpolated_entries(s: Seq<(String, Value)>, env: EnvModel) -> Option<
    Seq<(Seq<char>, ValueModel)>,
>
    decreases s,
{
    if s.len() == 0 {
        Some(Seq::empty())
    } else {
        match (interpolated_entries(s.drop_last(), env), interpolated(s.last().1, env)) {
            (Some(a), Some(b)) => Some(a.push((s.last().0@, b))),
            _ => None,
        }
    }
}

proof fn lemma_list_failure_extends(s: Seq<Value>, k: int, env: EnvModel)
    requires
        0 <= k <= s.len(),
        interpolated_list(s.subrange(0, k), env) is None,
    ensures
        interpolated_list(s, env) is None,
    decreases s.len() - k,
{
    if k < s.len() {
        assert(s.subrange(0, k + 1).drop_last() =~= s.subrange(0, k));
        lemma_list_failure_extends(s, k + 1, env);
    } else {
        assert(s.subrange(0, k) =~= s);
    }
}

proof fn lemma_entries_failure_extends(s: Seq<(String, Value)>, k: int, env: EnvModel)
    requires
        0 <= k <= s.len(),
        interpolated_entries(s.subrange(0, k), env) is None,
    ensures
        interpolated_entries(s, env) is None,
    decreases s.len() - k,
{
    if k < s.len() {
        assert(s.subrange(0, k + 1).drop_last() =~= s.subrange(0, k));
        lemma_entries_failure_extends(s, k + 1, env);
    } else {
        assert(s.subrange(0, k) =~= s);
    }
}

/// Interpolates every string leaf of `v`, keeping its structure, its keys and
/// its other scalars.
pub fn interpolate_value(v: &Value, env: &Vec<(String, Value)>) -> (r: Result<Value, RunnerError>)
    ensures
        match r {
            Ok(x) => interpolated(*v, env_model(env@)) == Some(x@),
            Err(e) => interpolated(*v, env_model(env@)) is None && e is InterpolationError,
        },
    decreases v,
{
    match v {
        Value::Str(s) => {
            let t = interpolate_string(s.as_str(), env)?;
            Ok(Value::Str(t))
        },
        Value::List(items) => {
            let ghost m = env_model(env@);
            let mut out: Vec<Value> = Vec::new();
            let mut i: usize = 0;
            proof {
                assert(items@.subrange(0, 0) =~= Seq::<Value>::empty());
                assert(out@ =~= Seq::<Value>::empty());
            }
            while i < items.len()
                invariant
                    i <= items@.len(),
                    m == env_model(env@),
                    *v == Value::List(*items),
                    interpolated_list(items@.subrange(0, i as int), m) == Some(models_of(out@)),
                decreases items@.len() - i,
            {
                proof {
                    assert(decreases_to!(*v => v->List_0));
                    assert(decreases_to!(*items => items[i as int]));
                    assert(items@.subrange(0, i + 1).drop_last() =~= items@.subrange(0, i as int));
                }
                match interpolate_value(&items[i], env) {
                    Ok(c) => {
                        proof {
                            assert(out@.push(c).drop_last() =~= out@);
                        }
                        out.push(c);
                    },
                    Err(e) => {
                        proof {
                            lemma_list_failure_extends(items@, i + 1, m);
                        }
                        return Err(e);
                    },
                }
                i = i + 1;
            }
            proof {
                assert(items@.subrange(0, items@.len() as int) =~= items@);
            }
            Ok(Value::List(out))
        },
        Value::Mapping(entries) => {
            let ghost m = env_model(env@);
            let mut out: Vec<(String, Value)> = Vec::new();
            let mut i: usize = 0;
            proof {
                assert(entries@.subrange(0, 0) =~= Seq::<(String, Value)>::empty());
                assert(out@ =~= Seq::<(String, Value)>::empty());
            }
            while i < entries.len()
                invariant
                    i <= entries@.len(),
                    m == env_model(env@),
                    *v == Value::Mapping(*entries),
                    interpolated_entries(entries@.subrange(0, i as int), m) == Some(
                        entry_models_of(out@),
                    ),
                decreases entries@.len() - i,
            {
                proof {
                    assert(decreases_to!(*v => v->Mapping_0));
                    assert(decreases_to!(*entries => entries[i as int]));
                    assert(decreases_to!(entries[i as int] => entries[i as int].1));
                    assert(entries@.subrange(0, i + 1).drop_last() =~= entries@.subrange(
                        0,
                        i as int,
                    ));
                }
                match interpolate_value(&entries[i].1, env) {
                    Ok(c) => {
                        let e = (entries[i].0.clone(), c);
                        proof {
                            assert(out@.push(e).drop_last() =~= out@);
                        }
                        out.push(e);
                    },
                    Err(e) => {
                        proof {
                            lemma_entries_failure_extends(entries@, i + 1, m);
                        }
                        return Err(e);
                    },
                }
                i = i + 1;
            }
            proof {
                assert(entries@.subrange(0, entries@.len() as int) =~= entries@);
            }
            Ok(Value::Mapping(out))
        },
        _ => Ok(v.duplicate()),
    }
}

/// The template made of the single reference `{{name}}`.
pub open spec fn reference_to(name: Seq<char>) -> Seq<char> {
    seq!['{', '{'] + name + seq!['}', '}']
}

proof fn lemma_close_scan(t: Seq<char>, k: int, j: int)
    requires
        0 <= k <= j,
        is_close_at(t, j),
        forall|m: int| k <= m < j ==> !is_close_at(t, m),
    ensures
        close_from(t, k) == Some(j),
    decreases j - k,
{
    if k < j {
        lemma_close_scan(t, k + 1, j);
    }
}

proof fn lemma_render_plain_prefix(t: Seq<char>, i: int, k: int, env: EnvModel)
    requires
        0 <= i <= k <= t.len(),
        forall|m: int| i <= m < k ==> t[m] != '{',
    ensures
        render_from(t, i, env) == prefixed(t.subrange(i, k), render_from(t, k, env)),
    decreases k - i,
{
    if i == k {
        if let Some(r) = render_from(t, k, env) {
            assert(t.subrange(i, k) + r =~= r);
        }
    } else {
        lemma_render_plain_prefix(t, i + 1, k, env);
        if let Some(r) = render_from(t, k, env) {
            assert(seq![t[i]] + (t.subrange(i + 1, k) + r) =~= t.subrange(i, k) + r);
        }
    }
}

proof fn lemma_close_shift(x: Seq<char>, y: Seq<char>, k: int)
    requires
        0 <= k,
    ensures
        close_from(x + y, x.len() + k) == (match close_from(y, k) {
            Some(j) => Some(x.len() + j),
            None => None::<int>,
        }),
    decreases y.len() - k,
{
    let t = x + y;
    if k + 1 < y.len() {
        assert(t[x.len() + k] == y[k] && t[x.len() + k + 1] == y[k + 1]);
        lemma_close_shift(x, y, k + 1);
    }
}

proof fn lemma_render_shift(x: Seq<char>, y: Seq<char>, k: int, env: EnvModel)
    requires
        0 <= k,
    ensures
        render_from(x + y, x.len() + k, env) == render_from(y, k, env),
    decreases y.len() - k,
{
    let t = x + y;
    let n = x.len() as int;
    if k < y.len() {
        assert(t[n + k] == y[k]);
        if k + 1 < y.len() {
            assert(t[n + k + 1] == y[k + 1]);
        }
        if is_open_at(y, k) {
            lemma_close_shift(x, y, k + 2);
            lemma_close_from_bounds(y, k + 2);
            if let Some(j) = close_from(y, k + 2) {
                assert(t.subrange(n + k + 2, n + j) =~= y.subrange(k + 2, j));
                lemma_render_shift(x, y, j + 2, env);
            }
        } else {
            lemma_render_shift(x, y, k + 1, env);
        }
    }
}

/// Strict interpolation of a template holding one reference to `name`
/// between plain text `pre` and a rest `post`: it fails when `name` is
/// undefined, and otherwise yields `pre`, then exactly the text of the
/// value, then the interpolation of `post`.
pub proof fn law_reference_substitutes(
    pre: Seq<char>,
    name: Seq<char>,
    post: Seq<char>,
    env: EnvModel,
)
    requires
        forall|i: int| 0 <= i < pre.len() ==> pre[i] != '{',
        forall|i: int| 0 <= i < name.len() ==> name[i] != '}',
    ensures
        env_lookup(env, name) is None ==> interpolate(pre + reference_to(name) + post, env) is None,
        env_lookup(env, name) matches Some(v) ==> interpolate(
            pre + reference_to(name) + post,
            env,
        ) == match scalar_text(v) {
            None => None,
            Some(s) => prefixed(pre + s, interpolate(post, env)),
        },
{
    let x = pre + reference_to(name);
    let t = x + post;
    let p = pre.len() as int;
    let n = name.len() as int;
    assert(x.len() == p + n + 4);
    assert forall|m: int| 0 <= m < p implies t[m] != '{' by {
        assert(t[m] == pre[m]);
    }
    lemma_render_plain_prefix(t, 0, p, env);
    assert(t.subrange(0, p) =~= pre);
    assert(t[p] == '{' && t[p + 1] == '{');
    assert(is_open_at(t, p));
    assert(t[p + n + 2] == '}' && t[p + n + 3] == '}');
    assert forall|m: int| p + 2 <= m < p + n + 2 implies !is_close_at(t, m) by {
        assert(t[m] == name[m - p - 2]);
    }
    lemma_close_scan(t, p + 2, p + n + 2);
    assert(t.subrange(p + 2, p + n + 2) =~= name);
    lemma_render_shift(x, post, 0, env);
    if let Some(v) = env_lookup(env, name) {
        if let Some(sv) = scalar_text(v) {
            if let Some(r) = interpolate(post, env) {
                assert(pre + (sv + r) =~= pre + sv + r);
            }
        }
    }
}

} // verus!
