//! The runner: one merged schema, one environment selection and the
//! overrides that script hooks write, with lookups, call queues and request
//! construction on top.
use vstd::prelude::*;
use crate::env::{build_env, resolve_env};
use crate::error::RunnerError;
use crate::graph::{
    call_queue, deps_before, generate_call_queue, generate_sequence_queue, member_queue_ok, traversal_result,
};
use crate::merge::check_project_present;
use crate::request::{build_outcome, build_result, build_with_env, BuiltRequest};
use crate::schema::{find_entry, find_in, names, Request, Schema, Script};
use crate::value::{env_model, Value};

verus! {

/// The script engine a runner was given.
#[derive(Debug, Clone, Copy, PartialEq, Eq, Structural)]
pub enum ScriptEngine {
    Rhai,
    /// No engine: hooks cannot run.
    Absent,
}

pub struct Runner {
    pub schema: Schema,
    filename: String,
    environment: Option<String>,
    /// Variables that script hooks set at runtime; they take precedence
    /// over the declared values.
    overrides: Vec<(String, Value)>,
    script_engine: ScriptEngine,
}

/// `s` spells `default`, in any mix of ASCII case.
pub open spec fn is_default_name(s: Seq<char>) -> bool {
    s.len() == 7 && forall|i: int|
        0 <= i < 7 ==> #[trigger] s[i] == seq!['d', 'e', 'f', 'a', 'u', 'l', 't'][i] || s[i]
            == seq!['D', 'E', 'F', 'A', 'U', 'L', 'T'][i]
}

/// Whether `s` spells `default`, in any mix of ASCII case.
pub fn names_default(s: &String) -> (r: bool)
    ensures
        r == is_default_name(s@),
{
    let lower = ['d', 'e', 'f', 'a', 'u', 'l', 't'];
    let upper = ['D', 'E', 'F', 'A', 'U', 'L', 'T'];
    let t = s.as_str();
    if t.unicode_len() != 7 {
        return false;
    }
    let mut i: usize = 0;
    while i < 7
        invariant
            i <= 7,
            t@ == s@,
            s@.len() == 7,
            lower@ == seq!['d', 'e', 'f', 'a', 'u', 'l', 't'],
            upper@ == seq!['D', 'E', 'F', 'A', 'U', 'L', 'T'],
            forall|k: int| 0 <= k < i ==> #[trigger] s@[k] == lower@[k] || s@[k] == upper@[k],
        decreases 7 - i,
    {
        let c = t.get_char(i);
        if c != lower[i] && c != upper[i] {
            return false;
        }
        i = i + 1;
    }
    true
}

impl Runner {
    pub closed spec fn spec_schema(&self) -> Schema {
        self.schema
    }

    pub closed spec fn spec_filename(&self) -> String {
        self.filename
    }

    pub closed spec fn spec_environment(&self) -> Option<String> {
        self.environment
    }

    pub closed spec fn spec_overrides(&self) -> Seq<(String, Value)> {
        self.overrides@
    }

    pub closed spec fn spec_script_engine(&self) -> ScriptEngine {
        self.script_engine
    }

    /// A runner over an already merged schema, with no overrides.
    pub fn from_schema(
        schema: Schema,
        environment: Option<String>,
        script_engine: ScriptEngine,
    ) -> (r: Runner)
        ensures
            r.spec_schema() == schema,
            r.spec_filename()@ == Seq::<char>::empty(),
            r.spec_environment() == environment,
            r.spec_overrides() == Seq::<(String, Value)>::empty(),
            r.spec_script_engine() == script_engine,
    {
        Runner {
            schema,
            filename: String::new(),
            environment,
            overrides: Vec::new(),
            script_engine,
        }
    }

    /// A runner over the schema merged from the file `filename`. The
    /// environment may not be named `default`; a project file must describe
    /// its project.
    pub fn new(
        schema: Schema,
        filename: &str,
        environment: Option<String>,
        script_engine: ScriptEngine,
        as_project: bool,
    ) -> (r: Result<Runner, RunnerError>)
        ensures
            match environment {
                Some(e) => is_default_name(e@) ==> (r matches Err(
                    RunnerError::ReservedEnvironmentName { name },
                ) && name == e),
                None => true,
            },
            !(environment matches Some(e) && is_default_name(e@)) ==> (r is Err <==> as_project
                && schema.project is None),
            !(environment matches Some(e) && is_default_name(e@)) ==> (r matches Err(e) ==> (
            e matches RunnerError::MissingProjectDefinition { file } && file@ == schema.filename@)),
            r matches Ok(run) ==> run.spec_schema() == schema && run.spec_filename()@ == filename@
                && run.spec_environment() == environment && run.spec_overrides()
                == Seq::<(String, Value)>::empty() && run.spec_script_engine() == script_engine,
    {
        if let Some(e) = &environment {
            if names_default(e) {
                return Err(RunnerError::ReservedEnvironmentName { name: e.clone() });
            }
        }
        check_project_present(&schema, as_project)?;
        Ok(
            Runner {
                schema,
                filename: filename.to_owned(),
                environment,
                overrides: Vec::new(),
                script_engine,
            },
        )
    }

    pub fn schema(&self) -> (r: &Schema)
        ensures
            *r == self.spec_schema(),
    {
        &self.schema
    }

    pub fn filename(&self) -> (r: &String)
        ensures
            *r == self.spec_filename(),
    {
        &self.filename
    }

    pub fn environment(&self) -> (r: &Option<String>)
        ensures
            *r == self.spec_environment(),
    {
        &self.environment
    }

    pub fn overrides(&self) -> (r: &Vec<(String, Value)>)
        ensures
            r@ == self.spec_overrides(),
    {
        &self.overrides
    }

    /// Resolves the declared variables for the runner's environment, with
    /// the runtime overrides taking precedence.
    pub fn build_env(&self) -> (r: Result<Vec<(String, Value)>, RunnerError>)
        ensures
            match r {
                Ok(env) => resolve_env(
                    self.spec_schema().env@,
                    self.spec_environment(),
                    self.spec_overrides(),
                ) == Some(env_model(env@)),
                Err(e) => resolve_env(
                    self.spec_schema().env@,
                    self.spec_environment(),
                    self.spec_overrides(),
                ) is None && e is InterpolationError,
            },
    {
        build_env(&self.schema.env, &self.environment, &self.overrides)
    }

    /// The request named `name`.
    pub fn get_request_schema(&self, name: &String) -> (r: Result<&Request, RunnerError>)
        ensures
            match find_entry(self.spec_schema().requests@, name@) {
                Some(req) => r matches Ok(x) && *x == req,
                None => r matches Err(RunnerError::RequestNotFound { name: n }) && n@ == name@,
            },
    {
        match find_in(&self.schema.requests, name) {
            Some(r) => Ok(r),
            None => Err(RunnerError::RequestNotFound { name: name.clone() }),
        }
    }

    /// The call sequence named `name`.
    pub fn get_sequence(&self, name: &String) -> (r: Result<&Vec<String>, RunnerError>)
        ensures
            match find_entry(self.spec_schema().calls@, name@) {
                Some(seq) => r matches Ok(x) && *x == seq,
                None => r matches Err(RunnerError::SequenceNotFound { name: n }) && n@ == name@,
            },
    {
        match find_in(&self.schema.calls, name) {
            Some(s) => Ok(s),
            None => Err(RunnerError::SequenceNotFound { name: name.clone() }),
        }
    }

    /// Builds `request` against a freshly resolved environment, so that
    /// overrides set by earlier hooks are seen.
    pub fn build_request(&self, request: &Request) -> (r: Result<BuiltRequest, RunnerError>)
        ensures
            match resolve_env(self.spec_schema().env@, self.spec_environment(), self.spec_overrides()) {
                None => r matches Err(e) && e is InterpolationError,
                Some(m) => build_result(r, build_outcome(*request, m), request.method@),
            },
    {
        let env = self.build_env()?;
        build_with_env(request, &env)
    }

    /// The call queue of the request `name`.
    pub fn generate_call_queue(&self, name: &String) -> (r: Result<Vec<String>, RunnerError>)
        ensures
            traversal_result(r, call_queue(self.spec_schema().requests@, name@)),
            r matches Ok(v) ==> names(v@).no_duplicates(),
            r matches Ok(v) ==> deps_before(self.spec_schema().requests@, names(v@)),
    {
        generate_call_queue(&self.schema.requests, name)
    }

    /// One call queue per member of the call sequence `name`.
    pub fn generate_sequence_queue(&self, name: &String) -> (r: Result<
        Vec<Vec<String>>,
        RunnerError,
    >)
        ensures
            match find_entry(self.spec_schema().calls@, name@) {
                None => r matches Err(RunnerError::SequenceNotFound { name: n }) && n@ == name@,
                Some(members) => match r {
                    Ok(v) => v@.len() == members@.len() && forall|i: int|
                        0 <= i < v@.len() ==> member_queue_ok(
                            #[trigger] v@[i],
                            call_queue(self.spec_schema().requests@, members@[i]@),
                        ),
                    Err(e) => exists|i: int|
                        0 <= i < members@.len() && (forall|k: int|
                            0 <= k < i ==> #[trigger] call_queue(
                                self.spec_schema().requests@,
                                members@[k]@,
                            ) is Stack) && traversal_result(
                            Err(e),
                            call_queue(self.spec_schema().requests@, members@[i]@),
                        ),
                },
            },
    {
        generate_sequence_queue(&self.schema.requests, &self.schema.calls, name)
    }

    /// The source a hook hands to the script engine. Only Rhai hooks run,
    /// and only on a runner that has the Rhai engine; the other languages
    /// are refused.
    pub fn run_request_script<'a>(&self, script: &'a Script) -> (r: Result<&'a String, RunnerError>)
        ensures
            match *script {
                Script::Rhai { content } => if self.spec_script_engine() == ScriptEngine::Rhai {
                    r matches Ok(s) && *s == content
                } else {
                    r matches Err(e) && e is ScriptExecutionError
                },
                Script::Javascript { .. } => r matches Err(
                    RunnerError::UnsupportedScriptLanguage { language },
                ) && language@ == seq!['j', 'a', 'v', 'a', 's', 'c', 'r', 'i', 'p', 't'],
                Script::Lua { .. } => r matches Err(
                    RunnerError::UnsupportedScriptLanguage { language },
                ) && language@ == seq!['l', 'u', 'a'],
            },
    {
        proof {
            reveal_strlit("javascript");
            reveal_strlit("lua");
        }
        match script {
            Script::Rhai { content } => {
                if self.script_engine == ScriptEngine::Rhai {
                    Ok(content)
                } else {
                    Err(
                        RunnerError::ScriptExecutionError {
                            message: "Rhai engine not available to run rhai script".to_owned(),
                        },
                    )
                }
            },
            Script::Javascript { .. } => {
                let language = "javascript".to_owned();
                proof {
                    assert(language@ =~= seq!['j', 'a', 'v', 'a', 's', 'c', 'r', 'i', 'p', 't']);
                }
                Err(RunnerError::UnsupportedScriptLanguage { language })
            },
            Script::Lua { .. } => {
                let language = "lua".to_owned();
                proof {
                    assert(language@ =~= seq!['l', 'u', 'a']);
                }
                Err(RunnerError::UnsupportedScriptLanguage { language })
            },
        }
    }

    /// Records what a hook run left: on success its overrides replace the
    /// runner's; on failure the runner is unchanged.
    pub fn finish_script(&mut self, outcome: Result<Vec<(String, Value)>, String>) -> (r: Result<
        (),
        RunnerError,
    >)
        ensures
            final(self).spec_schema() == old(self).spec_schema(),
            final(self).spec_filename() == old(self).spec_filename(),
            final(self).spec_environment() == old(self).spec_environment(),
            final(self).spec_script_engine() == old(self).spec_script_engine(),
            match outcome {
                Ok(o) => r is Ok && final(self).spec_overrides() == o@,
                Err(m) => r matches Err(RunnerError::ScriptExecutionError { message }) && message
                    == m && final(self).spec_overrides() == old(self).spec_overrides(),
            },
    {
        match outcome {
            Ok(o) => {
                self.overrides = o;
                Ok(())
            },
            Err(m) => Err(RunnerError::ScriptExecutionError { message: m }),
        }
    }
}

} // verus!
