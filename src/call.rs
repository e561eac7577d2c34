//! The decisions of one request call, as a state machine: the caller runs
//! the script hooks and the transport, and reports back what happened.
use vstd::prelude::*;
use crate::env::resolve_env;
use crate::error::RunnerError;
use crate::request::{build_outcome, build_result, BuiltRequest};
use crate::runner::{Runner, ScriptEngine};
use crate::schema::{find_entry, find_in, Request, Script};
use crate::value::Value;

verus! {

#[derive(Debug, Clone, Copy, PartialEq, Eq, Structural)]
pub enum CallPhase {
    Idle,
    /// The pre-request hook is running.
    PreScript,
    /// The request is being sent.
    Executing,
    /// The post-request hook is running.
    PostScript,
    Done,
    Failed,
}

/// What the caller reports.
pub enum CallEvent {
    Begin,
    /// A hook finished: the overrides it left, or its failure message.
    ScriptDone(Result<Vec<(String, Value)>, String>),
    /// The transport answered, or failed with a message.
    Sent(Result<(), String>),
}

/// What the caller is to do next.
pub enum CallAction {
    /// Run this Rhai source against the runner's overrides.
    RunScript(String),
    Send(BuiltRequest),
    Complete,
    Abort(RunnerError),
    /// The event does not fit the phase; nothing changes.
    Ignore,
}

pub open spec fn pre_hook(r: Request) -> Option<Script> {
    match r.script {
        Some(c) => c.pre_request,
        None => None,
    }
}

pub open spec fn post_hook(r: Request) -> Option<Script> {
    match r.script {
        Some(c) => c.post_request,
        None => None,
    }
}

/// The source a hook runs, or `None` where it cannot run here.
pub open spec fn hook_source(engine: ScriptEngine, s: Script) -> Option<String> {
    match s {
        Script::Rhai { content } => if engine == ScriptEngine::Rhai {
            Some(content)
        } else {
            None
        },
        _ => None,
    }
}

/// `e` is the error of a hook `s` that cannot run on `engine`.
pub open spec fn hook_failure(engine: ScriptEngine, s: Script, e: RunnerError) -> bool {
    match s {
        Script::Rhai { .. } => engine != ScriptEngine::Rhai && e is ScriptExecutionError,
        Script::Javascript { .. } => e matches RunnerError::UnsupportedScriptLanguage { language }
            && language@ == seq!['j', 'a', 'v', 'a', 's', 'c', 'r', 'i', 'p', 't'],
        Script::Lua { .. } => e matches RunnerError::UnsupportedScriptLanguage { language }
            && language@ == seq!['l', 'u', 'a'],
    }
}

/// `r` is what building `req` on `run` leads to: sending what was built, or
/// failing with the build's own error.
pub open spec fn build_step(run: Runner, req: Request, r: (CallPhase, CallAction)) -> bool {
    match resolve_env(run.spec_schema().env@, run.spec_environment(), run.spec_overrides()) {
        None => r.0 == CallPhase::Failed && (r.1 matches CallAction::Abort(e)
            && e is InterpolationError),
        Some(m) => match build_outcome(req, m) {
            Ok(_) => r.0 == CallPhase::Executing && (r.1 matches CallAction::Send(b) && build_result(
                Ok(b),
                build_outcome(req, m),
                req.method@,
            )),
            Err(_) => r.0 == CallPhase::Failed && (r.1 matches CallAction::Abort(e) && build_result(
                Err(e),
                build_outcome(req, m),
                req.method@,
            )),
        },
    }
}

/// `r` is what entering the hook `h` leads to, `otherwise` being the
/// outcome when there is no hook.
pub open spec fn hook_step(
    run: Runner,
    h: Option<Script>,
    phase: CallPhase,
    r: (CallPhase, CallAction),
    no_hook: bool,
) -> bool {
    match h {
        None => no_hook,
        Some(s) => match hook_source(run.spec_script_engine(), s) {
            Some(src) => r.0 == phase && (r.1 matches CallAction::RunScript(x) && x == src),
            None => r.0 == CallPhase::Failed && (r.1 matches CallAction::Abort(e) && hook_failure(
                run.spec_script_engine(),
                s,
                e,
            )),
        },
    }
}

/// The request `name` is missing: the call fails with `RequestNotFound`.
pub open spec fn not_found_step(name: Seq<char>, r: (CallPhase, CallAction)) -> bool {
    r.0 == CallPhase::Failed && (r.1 matches CallAction::Abort(
        RunnerError::RequestNotFound { name: n },
    ) && n@ == name)
}

impl Runner {
    fn enter_build(&self, request: &Request) -> (r: (CallPhase, CallAction))
        ensures
            build_step(*self, *request, r),
    {
        match self.build_request(request) {
            Ok(b) => (CallPhase::Executing, CallAction::Send(b)),
            Err(e) => (CallPhase::Failed, CallAction::Abort(e)),
        }
    }

    fn enter_hook(&self, hook: &Option<Script>, phase: CallPhase) -> (r: Option<
        (CallPhase, CallAction),
    >)
        ensures
            match *hook {
                None => r is None,
                Some(s) => r matches Some(x) && match hook_source(self.spec_script_engine(), s) {
                    Some(src) => x.0 == phase && (x.1 matches CallAction::RunScript(y) && y == src),
                    None => x.0 == CallPhase::Failed && (x.1 matches CallAction::Abort(e)
                        && hook_failure(self.spec_script_engine(), s, e)),
                },
            },
    {
        match hook {
            None => None,
            Some(s) => match self.run_request_script(s) {
                Ok(src) => Some((phase, CallAction::RunScript(src.clone()))),
                Err(e) => Some((CallPhase::Failed, CallAction::Abort(e))),
            },
        }
    }

    /// One step of calling the request `name`: from `phase`, on `event`, the
    /// next phase and what the caller is to do. Only a finished hook changes
    /// the runner, and only its overrides.
    pub fn call_step(&mut self, name: &String, phase: CallPhase, event: CallEvent) -> (r: (
        CallPhase,
        CallAction,
    ))
        ensures
            final(self).spec_schema() == old(self).spec_schema(),
            final(self).spec_filename() == old(self).spec_filename(),
            final(self).spec_environment() == old(self).spec_environment(),
            final(self).spec_script_engine() == old(self).spec_script_engine(),
            match (phase, event) {
                (CallPhase::PreScript, CallEvent::ScriptDone(Ok(o))) => final(self).spec_overrides()
                    == o@,
                (CallPhase::PostScript, CallEvent::ScriptDone(Ok(o))) => final(self).spec_overrides()
                    == o@,
                _ => final(self).spec_overrides() == old(self).spec_overrides(),
            },
            match (phase, event) {
                (CallPhase::Idle, CallEvent::Begin) => match find_entry(
                    old(self).spec_schema().requests@,
                    name@,
                ) {
                    None => not_found_step(name@, r),
                    Some(req) => hook_step(
                        *old(self),
                        pre_hook(req),
                        CallPhase::PreScript,
                        r,
                        build_step(*old(self), req, r),
                    ),
                },
                (CallPhase::PreScript, CallEvent::ScriptDone(Ok(_))) => match find_entry(
                    old(self).spec_schema().requests@,
                    name@,
                ) {
                    None => not_found_step(name@, r),
                    Some(req) => build_step(*final(self), req, r),
                },
                (CallPhase::PreScript, CallEvent::ScriptDone(Err(m))) => r.0 == CallPhase::Failed
                    && (r.1 matches CallAction::Abort(RunnerError::ScriptExecutionError { message })
                    && message == m),
                (CallPhase::Executing, CallEvent::Sent(Ok(_))) => match find_entry(
                    old(self).spec_schema().requests@,
                    name@,
                ) {
                    None => not_found_step(name@, r),
                    Some(req) => hook_step(
                        *old(self),
                        post_hook(req),
                        CallPhase::PostScript,
                        r,
                        r.0 == CallPhase::Done && r.1 is Complete,
                    ),
                },
                (CallPhase::Executing, CallEvent::Sent(Err(_))) => r.0 == CallPhase::Failed && (
                r.1 matches CallAction::Abort(RunnerError::TransportError { request })
                    && request@ == name@),
                (CallPhase::PostScript, CallEvent::ScriptDone(Ok(_))) => r.0 == CallPhase::Done
                    && r.1 is Complete,
                (CallPhase::PostScript, CallEvent::ScriptDone(Err(m))) => r.0 == CallPhase::Failed
                    && (r.1 matches CallAction::Abort(RunnerError::ScriptExecutionError { message })
                    && message == m),
                _ => r.0 == phase && r.1 is Ignore,
            },
    {
        let no_hook: Option<Script> = None;
        match (phase, event) {
            (CallPhase::Idle, CallEvent::Begin) => match find_in(&self.schema().requests, name) {
                None => (
                    CallPhase::Failed,
                    CallAction::Abort(RunnerError::RequestNotFound { name: name.clone() }),
                ),
                Some(req) => {
                    let pre = match &req.script {
                        Some(c) => &c.pre_request,
                        None => &no_hook,
                    };
                    match self.enter_hook(pre, CallPhase::PreScript) {
                        Some(x) => x,
                        None => self.enter_build(req),
                    }
                },
            },
            (CallPhase::PreScript, CallEvent::ScriptDone(outcome)) => {
                match self.finish_script(outcome) {
                    Err(e) => (CallPhase::Failed, CallAction::Abort(e)),
                    Ok(()) => match find_in(&self.schema().requests, name) {
                        None => (
                            CallPhase::Failed,
                            CallAction::Abort(RunnerError::RequestNotFound { name: name.clone() }),
                        ),
                        Some(req) => self.enter_build(req),
                    },
                }
            },
            (CallPhase::Executing, CallEvent::Sent(Ok(()))) => match find_in(
                &self.schema().requests,
                name,
            ) {
                None => (
                    CallPhase::Failed,
                    CallAction::Abort(RunnerError::RequestNotFound { name: name.clone() }),
                ),
                Some(req) => {
                    let post = match &req.script {
                        Some(c) => &c.post_request,
                        None => &no_hook,
                    };
                    match self.enter_hook(post, CallPhase::PostScript) {
                        Some(x) => x,
                        None => (CallPhase::Done, CallAction::Complete),
                    }
                },
            },
            (CallPhase::Executing, CallEvent::Sent(Err(_))) => (
                CallPhase::Failed,
                CallAction::Abort(RunnerError::TransportError { request: name.clone() }),
            ),
            (CallPhase::PostScript, CallEvent::ScriptDone(outcome)) => {
                match self.finish_script(outcome) {
                    Err(e) => (CallPhase::Failed, CallAction::Abort(e)),
                    Ok(()) => (CallPhase::Done, CallAction::Complete),
                }
            },
            (p, _) => (p, CallAction::Ignore),
        }
    }
}

} // verus!
