//! The typed form of a schema document.
use vstd::prelude::*;
use crate::value::Value;

verus! {

/// One schema file, or several merged into one. Each of `env`, `requests`
/// and `calls` keeps its entries in declaration order.
#[derive(Debug)]
pub struct Schema {
    pub filename: String,
    pub imports: Vec<String>,
    pub env: Vec<(String, EnvironmentVariable)>,
    pub requests: Vec<(String, Request)>,
    pub calls: Vec<(String, Vec<String>)>,
    /// Project description; only a root file may carry one.
    pub project: Option<Project>,
    /// The file that declares each entry of `env`, position by position.
    pub env_origins: Vec<String>,
    /// The file that declares each entry of `requests`.
    pub request_origins: Vec<String>,
    /// The file that declares each entry of `calls`.
    pub call_origins: Vec<String>,
}

/// `n` copies of `file`.
fn origins_of(file: &String, n: usize) -> (r: Vec<String>)
    ensures
        r@.len() == n,
        forall|i: int| 0 <= i < n ==> #[trigger] r@[i] == *file,
{
    let mut out: Vec<String> = Vec::new();
    let mut i: usize = 0;
    while i < n
        invariant
            i <= n,
            out@.len() == i,
            forall|k: int| 0 <= k < i ==> #[trigger] out@[k] == *file,
        decreases n - i,
    {
        out.push(file.clone());
        i = i + 1;
    }
    out
}

impl Schema {
    /// Records this schema's own file as the declaring file of every entry.
    pub fn attribute_to_file(&mut self)
        ensures
            final(self).filename == old(self).filename,
            final(self).imports == old(self).imports,
            final(self).env == old(self).env,
            final(self).requests == old(self).requests,
            final(self).calls == old(self).calls,
            final(self).project == old(self).project,
            final(self).env_origins@.len() == old(self).env@.len(),
            final(self).request_origins@.len() == old(self).requests@.len(),
            final(self).call_origins@.len() == old(self).calls@.len(),
            forall|i: int| 0 <= i < final(self).env_origins@.len() ==> #[trigger] final(self).env_origins@[i] == old(self).filename,
            forall|i: int| 0 <= i < final(self).request_origins@.len() ==> #[trigger] final(self).request_origins@[i] == old(self).filename,
            forall|i: int| 0 <= i < final(self).call_origins@.len() ==> #[trigger] final(self).call_origins@[i] == old(self).filename,
    {
        self.env_origins = origins_of(&self.filename, self.env.len());
        self.request_origins = origins_of(&self.filename, self.requests.len());
        self.call_origins = origins_of(&self.filename, self.calls.len());
    }
}

/// Describes the project of a root file.
#[derive(Debug, Clone)]
pub struct Project {
    pub name: String,
    pub version: String,
    pub description: String,
    pub authors: Vec<User>,
    /// The document this project is generated from, if any.
    pub generator: Option<String>,
    /// The environment used when none is chosen.
    pub default_env: Option<String>,
}

#[derive(Debug, Clone)]
pub struct User {
    pub name: String,
    pub email: String,
}

/// A variable's default value and its value per environment.
#[derive(Debug, Clone)]
pub struct EnvironmentVariable {
    pub default: Value,
    pub overrides: Vec<(String, Value)>,
}

/// A single request definition.
#[derive(Debug, Clone)]
pub struct Request {
    pub method: String,
    pub url: String,
    pub doc: String,
    pub config: Option<RequestConfig>,
    pub headers: Option<Vec<(String, String)>>,
    pub query: Option<Vec<(String, String)>>,
    pub body: Option<RequestBody>,
    pub script: Option<RequestScriptConfig>,
}

/// Ordering and timing settings of a request. `delay`, `timeout` and
/// `retries` are carried but not acted upon by this engine.
#[derive(Debug, Clone)]
pub struct RequestConfig {
    pub depends_on: Vec<String>,
    pub delay: Option<String>,
    pub timeout: Option<String>,
    pub retries: u32,
}

/// Hooks that run around a request.
#[derive(Debug, Clone)]
pub struct RequestScriptConfig {
    pub post_request: Option<Script>,
    pub pre_request: Option<Script>,
}

/// A hook's source, tagged by language. Only `Rhai` can be run.
#[derive(Debug, Clone)]
pub enum Script {
    Lua { content: String },
    Javascript { content: String },
    Rhai { content: String },
}

/// The body of a request, by encoding.
#[derive(Debug, Clone)]
pub enum RequestBody {
    Json { content: Value },
    Graphql { query: String, variables: Option<Value> },
    Xml { content: String },
    Text { content: String },
    FormUrlencoded { content: String },
    Multipart { parts: Vec<MultipartPart> },
}

/// One part of a multipart body.
#[derive(Debug, Clone)]
pub enum MultipartPart {
    Field { name: String, value: String },
    File { name: String, path: String, mime_type: Option<String> },
}

/// The views of a sequence of strings.
pub open spec fn names(s: Seq<String>) -> Seq<Seq<char>> {
    s.map_values(|x: String| x@)
}

/// The first entry keyed `name`.
pub open spec fn find_entry<T>(s: Seq<(String, T)>, name: Seq<char>) -> Option<T>
    decreases s.len(),
{
    if s.len() == 0 {
        None
    } else if s[0].0@ == name {
        Some(s[0].1)
    } else {
        find_entry(s.drop_first(), name)
    }
}

/// The keys of a keyed sequence.
pub open spec fn keys_of<T>(s: Seq<(String, T)>) -> Seq<Seq<char>> {
    s.map_values(|e: (String, T)| e.0@)
}

/// Finds the first entry keyed `name`.
pub fn find_in<'a, T>(s: &'a Vec<(String, T)>, name: &String) -> (r: Option<&'a T>)
    ensures
        find_entry(s@, name@) == (match r {
            Some(x) => Some(*x),
            None => None::<T>,
        }),
        r is Some <==> keys_of(s@).contains(name@),
{
    let mut i: usize = 0;
    proof {
        assert(s@.subrange(0, s@.len() as int) =~= s@);
    }
    while i < s.len()
        invariant
            i <= s@.len(),
            find_entry(s@, name@) == find_entry(s@.subrange(i as int, s@.len() as int), name@),
            forall|k: int| 0 <= k < i ==> s@[k].0@ != name@,
        decreases s@.len() - i,
    {
        assert(s@.subrange(i as int, s@.len() as int).drop_first() =~= s@.subrange(
            i + 1,
            s@.len() as int,
        ));
        if s[i].0 == *name {
            proof {
                assert(keys_of(s@)[i as int] == name@);
            }
            return Some(&s[i].1);
        }
        i = i + 1;
    }
    proof {
        if keys_of(s@).contains(name@) {
            let k = choose|k: int| 0 <= k < keys_of(s@).len() && keys_of(s@)[k] == name@;
            assert(s@[k].0@ == name@);
        }
    }
    None
}

} // verus!
