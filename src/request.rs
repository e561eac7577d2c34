//! Construction of transport-ready requests from request definitions and a
//! resolved environment.
use vstd::prelude::*;
use crate::error::RunnerError;
use crate::http::{is_known_method, is_method_token, known_method, method_is_token, url_is_valid, url_parses};
use crate::interp::{interpolate, interpolate_string, interpolate_value, interpolated};
use crate::schema::{MultipartPart, Request, RequestBody};
use crate::value::{entry_models_of, env_model, model_of, EnvModel, Value, ValueModel};

verus! {

/// One part of a multipart body, ready to send. The file's bytes are read
/// by the transport side from `path`.
#[derive(Debug)]
pub enum BuiltPart {
    Text { name: String, value: String },
    File { name: String, path: String, mime_type: Option<String> },
}

/// A body ready to send.
#[derive(Debug)]
pub enum BuiltBody {
    /// To be serialised as JSON.
    Json(Value),
    /// Sent as it stands.
    Raw(String),
    Multipart(Vec<BuiltPart>),
}

/// A request ready to hand to the transport.
#[derive(Debug)]
pub struct BuiltRequest {
    /// A known HTTP method.
    pub method: String,
    /// The interpolated URL; it parses as an absolute URL.
    pub url_text: String,
    pub headers: Vec<(String, String)>,
    pub query: Vec<(String, String)>,
    pub body: Option<BuiltBody>,
}

pub enum PartModel {
    Text(Seq<char>, Seq<char>),
    File(Seq<char>, Seq<char>, Option<Seq<char>>),
}

pub enum BodyModel {
    Json(ValueModel),
    Raw(Seq<char>),
    Multipart(Seq<PartModel>),
}

pub struct BuiltModel {
    pub url: Seq<char>,
    pub headers: Seq<(Seq<char>, Seq<char>)>,
    pub query: Seq<(Seq<char>, Seq<char>)>,
    pub body: Option<BodyModel>,
}

pub enum BuildFailure {
    Interpolation,
    MalformedUrl(Seq<char>),
    InvalidMethod,
}

pub open spec fn pairs_model(s: Seq<(String, String)>) -> Seq<(Seq<char>, Seq<char>)> {
    s.map_values(|p: (String, String)| (p.0@, p.1@))
}

/// Each value interpolated, keys kept; `None` where one fails.
pub open spec fn interpolated_pairs(s: Seq<(String, String)>, env: EnvModel) -> Option<
    Seq<(Seq<char>, Seq<char>)>,
>
    decreases s.len(),
{
    if s.len() == 0 {
        Some(Seq::empty())
    } else {
        match (interpolated_pairs(s.drop_last(), env), interpolate(s.last().1@, env)) {
            (Some(a), Some(v)) => Some(a.push((s.last().0@, v))),
            _ => None,
        }
    }
}

pub open spec fn optional_pairs(s: Option<Vec<(String, String)>>) -> Seq<(String, String)> {
    match s {
        Some(v) => v@,
        None => Seq::empty(),
    }
}

pub open spec fn part_model(p: MultipartPart, env: EnvModel) -> Option<PartModel> {
    match p {
        MultipartPart::Field { name, value } => match interpolate(value@, env) {
            Some(v) => Some(PartModel::Text(name@, v)),
            None => None,
        },
        MultipartPart::File { name, path, mime_type } => match interpolate(path@, env) {
            None => None,
            Some(pa) => match mime_type {
                None => Some(PartModel::File(name@, pa, None)),
                Some(m) => match interpolate(m@, env) {
                    Some(mi) => Some(PartModel::File(name@, pa, Some(mi))),
                    None => None,
                },
            },
        },
    }
}

pub open spec fn parts_model(s: Seq<MultipartPart>, env: EnvModel) -> Option<Seq<PartModel>>
    decreases s.len(),
{
    if s.len() == 0 {
        Some(Seq::empty())
    } else {
        match (parts_model(s.drop_last(), env), part_model(s.last(), env)) {
            (Some(a), Some(p)) => Some(a.push(p)),
            _ => None,
        }
    }
}

/// The JSON document of a GraphQL body: `query`, then `variables` if any.
pub open spec fn graphql_document(query: Seq<char>, variables: Option<ValueModel>) -> ValueModel {
    let q = seq![(seq!['q', 'u', 'e', 'r', 'y'], ValueModel::Str(query))];
    match variables {
        None => ValueModel::Mapping(q),
        Some(v) => ValueModel::Mapping(
            q.push((seq!['v', 'a', 'r', 'i', 'a', 'b', 'l', 'e', 's'], v)),
        ),
    }
}

/// The body to send; `None` where interpolation fails.
pub open spec fn body_model(b: RequestBody, env: EnvModel) -> Option<BodyModel> {
    match b {
        RequestBody::Json { content } => match interpolated(content, env) {
            Some(v) => Some(BodyModel::Json(v)),
            None => None,
        },
        RequestBody::Graphql { query, variables } => match interpolate(query@, env) {
            None => None,
            Some(q) => match variables {
                None => Some(BodyModel::Json(graphql_document(q, None))),
                Some(vars) => match interpolated(vars, env) {
                    Some(v) => Some(BodyModel::Json(graphql_document(q, Some(v)))),
                    None => None,
                },
            },
        },
        RequestBody::Xml { content } => match interpolate(content@, env) {
            Some(s) => Some(BodyModel::Raw(s)),
            None => None,
        },
        RequestBody::Text { content } => match interpolate(content@, env) {
            Some(s) => Some(BodyModel::Raw(s)),
            None => None,
        },
        RequestBody::FormUrlencoded { content } => match interpolate(content@, env) {
            Some(s) => Some(BodyModel::Raw(s)),
            None => None,
        },
        RequestBody::Multipart { parts } => match parts_model(parts@, env) {
            Some(ps) => Some(BodyModel::Multipart(ps)),
            None => None,
        },
    }
}

/// What building `req` against `env` yields, step by step, the first
/// failure winning: URL, method, headers, query, body.
pub open spec fn build_outcome(req: Request, env: EnvModel) -> Result<BuiltModel, BuildFailure> {
    match interpolate(req.url@, env) {
        None => Err(BuildFailure::Interpolation),
        Some(u) => if !url_parses(u) {
            Err(BuildFailure::MalformedUrl(u))
        } else if !(is_method_token(req.method@) && is_known_method(req.method@)) {
            Err(BuildFailure::InvalidMethod)
        } else {
            match interpolated_pairs(optional_pairs(req.headers), env) {
                None => Err(BuildFailure::Interpolation),
                Some(h) => match interpolated_pairs(optional_pairs(req.query), env) {
                    None => Err(BuildFailure::Interpolation),
                    Some(q) => match req.body {
                        None => Ok(BuiltModel { url: u, headers: h, query: q, body: None }),
                        Some(b) => match body_model(b, env) {
                            None => Err(BuildFailure::Interpolation),
                            Some(bm) => Ok(BuiltModel { url: u, headers: h, query: q, body: Some(bm) }),
                        },
                    },
                },
            }
        },
    }
}

pub open spec fn built_part_model(p: BuiltPart) -> PartModel {
    match p {
        BuiltPart::Text { name, value } => PartModel::Text(name@, value@),
        BuiltPart::File { name, path, mime_type } => PartModel::File(
            name@,
            path@,
            match mime_type {
                Some(m) => Some(m@),
                None => None,
            },
        ),
    }
}

pub open spec fn built_body_model(b: BuiltBody) -> BodyModel {
    match b {
        BuiltBody::Json(v) => BodyModel::Json(v@),
        BuiltBody::Raw(s) => BodyModel::Raw(s@),
        BuiltBody::Multipart(ps) => BodyModel::Multipart(
            ps@.map_values(|p: BuiltPart| built_part_model(p)),
        ),
    }
}

/// `r` is the executable form of the outcome `o` for a request whose
/// method is `method`.
pub open spec fn build_result(
    r: Result<BuiltRequest, RunnerError>,
    o: Result<BuiltModel, BuildFailure>,
    method: Seq<char>,
) -> bool {
    match o {
        Ok(m) => r matches Ok(b) && b.url_text@ == m.url && b.method@ == method && pairs_model(b.headers@) == m.headers
            && pairs_model(b.query@) == m.query && match (b.body, m.body) {
            (None, None) => true,
            (Some(x), Some(y)) => built_body_model(x) == y,
            _ => false,
        },
        Err(BuildFailure::Interpolation) => r matches Err(e) && e is InterpolationError,
        Err(BuildFailure::MalformedUrl(u)) => r matches Err(RunnerError::MalformedUrl { url })
            && url@ == u,
        Err(BuildFailure::InvalidMethod) => r matches Err(RunnerError::InvalidMethod { method: m })
            && m@ == method,
    }
}

fn interpolate_pairs(pairs: &Vec<(String, String)>, env: &Vec<(String, Value)>) -> (r: Result<
    Vec<(String, String)>,
    RunnerError,
>)
    ensures
        match r {
            Ok(v) => interpolated_pairs(pairs@, env_model(env@)) == Some(pairs_model(v@)),
            Err(e) => interpolated_pairs(pairs@, env_model(env@)) is None && e is InterpolationError,
        },
{
    let ghost m = env_model(env@);
    let mut out: Vec<(String, String)> = Vec::new();
    let mut i: usize = 0;
    proof {
        assert(pairs@.subrange(0, 0) =~= Seq::<(String, String)>::empty());
        assert(pairs_model(out@) =~= Seq::<(Seq<char>, Seq<char>)>::empty());
    }
    while i < pairs.len()
        invariant
            i <= pairs@.len(),
            m == env_model(env@),
            interpolated_pairs(pairs@.subrange(0, i as int), m) == Some(pairs_model(out@)),
        decreases pairs@.len() - i,
    {
        proof {
            assert(pairs@.subrange(0, i + 1).drop_last() =~= pairs@.subrange(0, i as int));
        }
        match interpolate_string(pairs[i].1.as_str(), env) {
            Ok(v) => {
                let ghost prev = out@;
                out.push((pairs[i].0.clone(), v));
                proof {
                    assert(pairs_model(out@) =~= pairs_model(prev).push((pairs@[i as int].0@, v@)));
                }
            },
            Err(e) => {
                proof {
                    lemma_pairs_failure_extends(pairs@, i as int + 1, m);
                }
                return Err(e);
            },
        }
        i = i + 1;
    }
    proof {
        assert(pairs@.subrange(0, pairs@.len() as int) =~= pairs@);
    }
    Ok(out)
}

proof fn lemma_pairs_failure_extends(s: Seq<(String, String)>, k: int, env: EnvModel)
    requires
        0 <= k <= s.len(),
        interpolated_pairs(s.subrange(0, k), env) is None,
    ensures
        interpolated_pairs(s, env) is None,
    decreases s.len() - k,
{
    if k < s.len() {
        assert(s.subrange(0, k + 1).drop_last() =~= s.subrange(0, k));
        lemma_pairs_failure_extends(s, k + 1, env);
    } else {
        assert(s.subrange(0, k) =~= s);
    }
}

proof fn lemma_parts_failure_extends(s: Seq<MultipartPart>, k: int, env: EnvModel)
    requires
        0 <= k <= s.len(),
        parts_model(s.subrange(0, k), env) is None,
    ensures
        parts_model(s, env) is None,
    decreases s.len() - k,
{
    if k < s.len() {
        assert(s.subrange(0, k + 1).drop_last() =~= s.subrange(0, k));
        lemma_parts_failure_extends(s, k + 1, env);
    } else {
        assert(s.subrange(0, k) =~= s);
    }
}

fn build_part(p: &MultipartPart, env: &Vec<(String, Value)>) -> (r: Result<BuiltPart, RunnerError>)
    ensures
        match r {
            Ok(b) => part_model(*p, env_model(env@)) == Some(built_part_model(b)),
            Err(e) => part_model(*p, env_model(env@)) is None && e is InterpolationError,
        },
{
    match p {
        MultipartPart::Field { name, value } => {
            let v = interpolate_string(value.as_str(), env)?;
            Ok(BuiltPart::Text { name: name.clone(), value: v })
        },
        MultipartPart::File { name, path, mime_type } => {
            let pa = interpolate_string(path.as_str(), env)?;
            let mime = match mime_type {
                None => None,
                Some(m) => Some(interpolate_string(m.as_str(), env)?),
            };
            Ok(BuiltPart::File { name: name.clone(), path: pa, mime_type: mime })
        },
    }
}

fn build_parts(parts: &Vec<MultipartPart>, env: &Vec<(String, Value)>) -> (r: Result<
    Vec<BuiltPart>,
    RunnerError,
>)
    ensures
        match r {
            Ok(v) => parts_model(parts@, env_model(env@)) == Some(
                v@.map_values(|p: BuiltPart| built_part_model(p)),
            ),
            Err(e) => parts_model(parts@, env_model(env@)) is None && e is InterpolationError,
        },
{
    let ghost m = env_model(env@);
    let mut out: Vec<BuiltPart> = Vec::new();
    let mut i: usize = 0;
    proof {
        assert(parts@.subrange(0, 0) =~= Seq::<MultipartPart>::empty());
        assert(out@.map_values(|p: BuiltPart| built_part_model(p)) =~= Seq::<PartModel>::empty());
    }
    while i < parts.len()
        invariant
            i <= parts@.len(),
            m == env_model(env@),
            parts_model(parts@.subrange(0, i as int), m) == Some(
                out@.map_values(|p: BuiltPart| built_part_model(p)),
            ),
        decreases parts@.len() - i,
    {
        proof {
            assert(parts@.subrange(0, i + 1).drop_last() =~= parts@.subrange(0, i as int));
        }
        match build_part(&parts[i], env) {
            Ok(b) => {
                let ghost prev = out@;
                let ghost bm = built_part_model(b);
                out.push(b);
                proof {
                    assert(out@.map_values(|p: BuiltPart| built_part_model(p)) =~= prev.map_values(
                        |p: BuiltPart| built_part_model(p),
                    ).push(bm));
                }
            },
            Err(e) => {
                proof {
                    lemma_parts_failure_extends(parts@, i as int + 1, m);
                }
                return Err(e);
            },
        }
        i = i + 1;
    }
    proof {
        assert(parts@.subrange(0, parts@.len() as int) =~= parts@);
    }
    Ok(out)
}

/// The JSON document of a GraphQL body.
fn graphql_value(query: String, variables: Option<Value>) -> (r: Value)
    ensures
        r@ == graphql_document(
            query@,
            match variables {
                Some(v) => Some(v@),
                None => None,
            },
        ),
{
    proof {
        reveal_strlit("query");
        reveal_strlit("variables");
    }
    let ghost qm = query@;
    let key = "query".to_owned();
    proof {
        assert(key@ =~= seq!['q', 'u', 'e', 'r', 'y']);
    }
    let mut entries: Vec<(String, Value)> = Vec::new();
    entries.push((key, Value::Str(query)));
    proof {
        assert(entries@.drop_last() =~= Seq::<(String, Value)>::empty());
        assert(entry_models_of(Seq::<(String, Value)>::empty()) == Seq::<(Seq<char>, ValueModel)>::empty());
        assert(entries@.last().1@ == ValueModel::Str(qm));
        assert(entry_models_of(entries@) == Seq::<(Seq<char>, ValueModel)>::empty().push(
            (entries@.last().0@, model_of(entries@.last().1)),
        ));
        assert(entry_models_of(entries@) =~= seq![
            (seq!['q', 'u', 'e', 'r', 'y'], ValueModel::Str(qm)),
        ]);
    }
    match variables {
        None => Value::Mapping(entries),
        Some(v) => {
            let ghost first = entries@;
            let ghost vm = v@;
            let key2 = "variables".to_owned();
            proof {
                assert(key2@ =~= seq!['v', 'a', 'r', 'i', 'a', 'b', 'l', 'e', 's']);
            }
            entries.push((key2, v));
            proof {
                assert(entries@.drop_last() =~= first);
                assert(entry_models_of(entries@) =~= seq![
                    (seq!['q', 'u', 'e', 'r', 'y'], ValueModel::Str(qm)),
                    (seq!['v', 'a', 'r', 'i', 'a', 'b', 'l', 'e', 's'], vm),
                ]);
            }
            Value::Mapping(entries)
        },
    }
}

fn build_body(body: &RequestBody, env: &Vec<(String, Value)>) -> (r: Result<BuiltBody, RunnerError>)
    ensures
        match r {
            Ok(b) => body_model(*body, env_model(env@)) == Some(built_body_model(b)),
            Err(e) => body_model(*body, env_model(env@)) is None && e is InterpolationError,
        },
{
    match body {
        RequestBody::Json { content } => {
            let v = interpolate_value(content, env)?;
            Ok(BuiltBody::Json(v))
        },
        RequestBody::Graphql { query, variables } => {
            let q = interpolate_string(query.as_str(), env)?;
            let vars = match variables {
                None => None,
                Some(v) => Some(interpolate_value(v, env)?),
            };
            Ok(BuiltBody::Json(graphql_value(q, vars)))
        },
        RequestBody::Xml { content } => Ok(BuiltBody::Raw(interpolate_string(content.as_str(), env)?)),
        RequestBody::Text { content } => Ok(BuiltBody::Raw(interpolate_string(content.as_str(), env)?)),
        RequestBody::FormUrlencoded { content } => Ok(
            BuiltBody::Raw(interpolate_string(content.as_str(), env)?),
        ),
        RequestBody::Multipart { parts } => Ok(BuiltBody::Multipart(build_parts(parts, env)?)),
    }
}

/// Builds `request` against the resolved environment `env`: the URL, the
/// method, every header and query value and the body, each interpolated
/// strictly; the first failure is returned.
pub fn build_with_env(request: &Request, env: &Vec<(String, Value)>) -> (r: Result<
    BuiltRequest,
    RunnerError,
>)
    ensures
        build_result(r, build_outcome(*request, env_model(env@)), request.method@),
{
    let url_text = interpolate_string(request.url.as_str(), env)?;
    if !url_is_valid(url_text.as_str()) {
        return Err(RunnerError::MalformedUrl { url: url_text });
    }
    if !(method_is_token(request.method.as_str()) && known_method(&request.method)) {
        return Err(RunnerError::InvalidMethod { method: request.method.clone() });
    }
    let method = request.method.clone();
    let headers = match &request.headers {
        Some(h) => interpolate_pairs(h, env)?,
        None => Vec::new(),
    };
    let query = match &request.query {
        Some(q) => interpolate_pairs(q, env)?,
        None => Vec::new(),
    };
    proof {
        assert(pairs_model(Seq::<(String, String)>::empty()) =~= Seq::empty());
    }
    let body = match &request.body {
        Some(b) => Some(build_body(b, env)?),
        None => None,
    };
    Ok(BuiltRequest { method, url_text, headers, query, body })
}

/// A JSON body is sent as its content with every string leaf interpolated,
/// nothing else changed; the build fails only where that interpolation or an
/// earlier step fails.
pub proof fn law_json_body_is_interpolated_content(req: Request, env: EnvModel, content: Value)
    requires
        req.body == Some(RequestBody::Json { content }),
    ensures
        build_outcome(req, env) matches Ok(m) ==> m.body == Some(
            BodyModel::Json(interpolated(content, env)->0),
        ) && interpolated(content, env) is Some,
        interpolated(content, env) is None ==> !(build_outcome(req, env) is Ok),
{
}

} // verus!
