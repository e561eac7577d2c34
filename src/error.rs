//! The failures that the engine reports. Each carries the names needed to
//! diagnose it without running again.
use vstd::prelude::*;

verus! {

#[derive(Clone, Debug)]
pub enum RunnerError {
    /// `key` of `kind` ("env", "request" or "call") is declared both in
    /// `existing` and in `incoming`.
    NameConflict { kind: String, key: String, existing: String, incoming: String },
    /// A file reached through an import declares a project.
    MisplacedProjectDefinition { file: String },
    /// A file is imported again while it is still being imported.
    ImportCycle { trace: Vec<String> },
    /// The environment chosen is named `default` (in any case), which names
    /// the default values rather than an environment.
    ReservedEnvironmentName { name: String },
    /// A project file declares no project.
    MissingProjectDefinition { file: String },
    RequestNotFound { name: String },
    SequenceNotFound { name: String },
    /// `name` is requested again below itself; `trace` lists the requests
    /// entered on the way down, then `name`.
    CircularDependency { trace: Vec<String>, name: String },
    /// The template is malformed or names an undefined or non-scalar variable.
    InterpolationError { template: String },
    MalformedUrl { url: String },
    InvalidMethod { method: String },
    FileReadError { part: String, path: String },
    InvalidMimeType { part: String, mime: String },
    RequestAssemblyError { request: String },
    TransportError { request: String },
    UnsupportedScriptLanguage { language: String },
    ScriptExecutionError { message: String },
}

} // verus!
