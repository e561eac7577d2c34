//! Resolution of declared variables for a chosen environment.
use vstd::prelude::*;
use crate::error::RunnerError;
use crate::interp::{interpolate_value, interpolated};
use crate::schema::{find_entry, find_in, EnvironmentVariable};
use crate::value::{entry_models_of, env_model, EnvModel, Value};

verus! {

/// The value a variable takes before interpolation: a runtime override of
/// the variable, else its value for the chosen environment, else its default.
pub open spec fn effective_value(
    name: Seq<char>,
    var: EnvironmentVariable,
    environment: Option<String>,
    overrides: Seq<(String, Value)>,
) -> Value {
    match find_entry(overrides, name) {
        Some(v) => v,
        None => match environment {
            Some(e) => match find_entry(var.overrides@, e@) {
                Some(v) => v,
                None => var.default,
            },
            None => var.default,
        },
    }
}

/// The variables resolved in declaration order, each interpolated against
/// those before it; `None` where one fails to interpolate.
pub open spec fn resolve_env(
    vars: Seq<(String, EnvironmentVariable)>,
    environment: Option<String>,
    overrides: Seq<(String, Value)>,
) -> Option<EnvModel>
    decreases vars.len(),
{
    if vars.len() == 0 {
        Some(Seq::empty())
    } else {
        match resolve_env(vars.drop_last(), environment, overrides) {
            None => None,
            Some(p) => match interpolated(
                effective_value(vars.last().0@, vars.last().1, environment, overrides),
                p,
            ) {
                None => None,
                Some(v) => Some(p.push((vars.last().0@, v))),
            },
        }
    }
}

proof fn lemma_resolve_failure_extends(
    vars: Seq<(String, EnvironmentVariable)>,
    k: int,
    environment: Option<String>,
    overrides: Seq<(String, Value)>,
)
    requires
        0 <= k <= vars.len(),
        resolve_env(vars.subrange(0, k), environment, overrides) is None,
    ensures
        resolve_env(vars, environment, overrides) is None,
    decreases vars.len() - k,
{
    if k < vars.len() {
        assert(vars.subrange(0, k + 1).drop_last() =~= vars.subrange(0, k));
        lemma_resolve_failure_extends(vars, k + 1, environment, overrides);
    } else {
        assert(vars.subrange(0, k) =~= vars);
    }
}

/// Resolves every declared variable for `environment`, in declaration order,
/// interpolating each against the variables resolved before it.
pub fn build_env(
    vars: &Vec<(String, EnvironmentVariable)>,
    environment: &Option<String>,
    overrides: &Vec<(String, Value)>,
) -> (r: Result<Vec<(String, Value)>, RunnerError>)
    ensures
        match r {
            Ok(env) => resolve_env(vars@, *environment, overrides@) == Some(env_model(env@)),
            Err(e) => resolve_env(vars@, *environment, overrides@) is None
                && e is InterpolationError,
        },
{
    let mut out: Vec<(String, Value)> = Vec::new();
    let mut i: usize = 0;
    proof {
        assert(vars@.subrange(0, 0) =~= Seq::<(String, EnvironmentVariable)>::empty());
        assert(entry_models_of(out@) =~= Seq::<(Seq<char>, crate::value::ValueModel)>::empty());
    }
    while i < vars.len()
        invariant
            i <= vars@.len(),
            resolve_env(vars@.subrange(0, i as int), *environment, overrides@) == Some(
                env_model(out@),
            ),
        decreases vars@.len() - i,
    {
        let name = &vars[i].0;
        let var = &vars[i].1;
        let chosen: &Value = match find_in(overrides, name) {
            Some(v) => v,
            None => match environment {
                Some(e) => match find_in(&var.overrides, e) {
                    Some(v) => v,
                    None => &var.default,
                },
                None => &var.default,
            },
        };
        proof {
            assert(vars@.subrange(0, i + 1).drop_last() =~= vars@.subrange(0, i as int));
            assert(*chosen == effective_value(name@, *var, *environment, overrides@));
        }
        match interpolate_value(chosen, &out) {
            Ok(v) => {
                let ghost prev = out@;
                let entry = (name.clone(), v);
                out.push(entry);
                proof {
                    assert(out@.drop_last() =~= prev);
                }
            },
            Err(e) => {
                proof {
                    lemma_resolve_failure_extends(vars@, i + 1, *environment, overrides@);
                }
                return Err(e);
            },
        }
        i = i + 1;
    }
    proof {
        assert(vars@.subrange(0, vars@.len() as int) =~= vars@);
    }
    Ok(out)
}

} // verus!
