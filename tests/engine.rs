use reqflow::call::{CallAction, CallEvent, CallPhase};
use reqflow::error::RunnerError;
use reqflow::interp::{interpolate_string, interpolate_value};
use reqflow::merge::{check_import_cycle, check_project_placement, merge_schema};
use reqflow::request::{BuiltBody, BuiltPart};
use reqflow::runner::{Runner, ScriptEngine};
use reqflow::schema::{
    EnvironmentVariable, MultipartPart, Project, Request, RequestBody, RequestConfig,
    RequestScriptConfig, Schema, Script,
};
use reqflow::value::Value;

fn s(x: &str) -> String {
    x.to_string()
}

fn request(url: &str, deps: &[&str]) -> Request {
    Request {
        method: s("GET"),
        url: s(url),
        doc: String::new(),
        config: Some(RequestConfig {
            depends_on: deps.iter().map(|d| s(d)).collect(),
            delay: None,
            timeout: None,
            retries: 0,
        }),
        headers: None,
        query: None,
        body: None,
        script: None,
    }
}

fn schema(file: &str) -> Schema {
    Schema {
        filename: s(file),
        imports: vec![],
        env: vec![],
        requests: vec![],
        calls: vec![],
        project: None,
        env_origins: vec![],
        request_origins: vec![],
        call_origins: vec![],
    }
}

fn var(default: &str) -> EnvironmentVariable {
    EnvironmentVariable { default: Value::Str(s(default)), overrides: vec![] }
}

fn runner_with(requests: Vec<(String, Request)>) -> Runner {
    let mut sc = schema("root.yaml");
    sc.requests = requests;
    Runner::from_schema(sc, None, ScriptEngine::Rhai)
}

fn text(v: &Value) -> String {
    match v {
        Value::Str(x) => x.clone(),
        other => panic!("not a string: {:?}", other),
    }
}

#[test]
fn chain_yields_reverse_order() {
    let r = runner_with(vec![
        (s("A"), request("http://a", &["B"])),
        (s("B"), request("http://b", &["C"])),
        (s("C"), request("http://c", &[])),
    ]);
    let q = r.generate_call_queue(&s("A")).unwrap();
    assert_eq!(q, vec![s("C"), s("B"), s("A")]);
}

#[test]
fn diamond_lists_shared_dependency_once_and_first() {
    let r = runner_with(vec![
        (s("A"), request("http://a", &["B", "C"])),
        (s("B"), request("http://b", &["D"])),
        (s("C"), request("http://c", &["D"])),
        (s("D"), request("http://d", &[])),
    ]);
    let q = r.generate_call_queue(&s("A")).unwrap();
    let pos = |n: &str| q.iter().position(|x| x == n).unwrap();
    assert_eq!(q.iter().filter(|x| x.as_str() == "D").count(), 1);
    assert_eq!(q.len(), 4);
    assert!(pos("D") < pos("B") && pos("D") < pos("C"));
    assert!(pos("B") < pos("A") && pos("C") < pos("A"));
    assert_eq!(q, vec![s("D"), s("C"), s("B"), s("A")]);
}

#[test]
fn cycle_is_reported_with_trace() {
    let r = runner_with(vec![
        (s("A"), request("http://a", &["B"])),
        (s("B"), request("http://b", &["A"])),
    ]);
    match r.generate_call_queue(&s("A")) {
        Err(RunnerError::CircularDependency { trace, name }) => {
            assert_eq!(trace, vec![s("A"), s("B")]);
            assert_eq!(name, s("A"));
        }
        other => panic!("unexpected: {:?}", other),
    }
}

#[test]
fn missing_dependency_is_not_found() {
    let r = runner_with(vec![(s("A"), request("http://a", &["Z"]))]);
    match r.generate_call_queue(&s("A")) {
        Err(RunnerError::RequestNotFound { name }) => assert_eq!(name, s("Z")),
        other => panic!("unexpected: {:?}", other),
    }
}

#[test]
fn sequence_queues_are_independent() {
    let mut sc = schema("root.yaml");
    sc.requests = vec![
        (s("A"), request("http://a", &["C"])),
        (s("B"), request("http://b", &["C"])),
        (s("C"), request("http://c", &[])),
    ];
    sc.calls = vec![(s("flow"), vec![s("A"), s("B")])];
    let r = Runner::from_schema(sc, None, ScriptEngine::Rhai);
    let q = r.generate_sequence_queue(&s("flow")).unwrap();
    assert_eq!(q, vec![vec![s("C"), s("A")], vec![s("C"), s("B")]]);
    assert_eq!(r.get_sequence(&s("flow")).unwrap(), &vec![s("A"), s("B")]);
    assert!(matches!(
        r.generate_sequence_queue(&s("nope")),
        Err(RunnerError::SequenceNotFound { .. })
    ));
    assert!(matches!(r.get_sequence(&s("nope")), Err(RunnerError::SequenceNotFound { .. })));
}

#[test]
fn override_chosen_by_environment() {
    let mut sc = schema("root.yaml");
    sc.env = vec![(
        s("host"),
        EnvironmentVariable {
            default: Value::Str(s("x")),
            overrides: vec![(s("staging"), Value::Str(s("y")))],
        },
    )];
    let staged = Runner::from_schema(sc, Some(s("staging")), ScriptEngine::Rhai);
    let env = staged.build_env().unwrap();
    assert_eq!(env[0].0, s("host"));
    assert_eq!(text(&env[0].1), s("y"));

    let mut sc = schema("root.yaml");
    sc.env = vec![(
        s("host"),
        EnvironmentVariable {
            default: Value::Str(s("x")),
            overrides: vec![(s("staging"), Value::Str(s("y")))],
        },
    )];
    let plain = Runner::from_schema(sc, None, ScriptEngine::Rhai);
    assert_eq!(text(&plain.build_env().unwrap()[0].1), s("x"));
}

#[test]
fn later_variables_see_earlier_ones() {
    let mut sc = schema("root.yaml");
    sc.env = vec![(s("host"), var("api.test")), (s("base"), var("https://{{host}}/v1"))];
    let r = Runner::from_schema(sc, None, ScriptEngine::Rhai);
    let env = r.build_env().unwrap();
    assert_eq!(text(&env[1].1), s("https://api.test/v1"));
}

#[test]
fn forward_reference_fails() {
    let mut sc = schema("root.yaml");
    sc.env = vec![(s("base"), var("https://{{host}}/v1")), (s("host"), var("api.test"))];
    let r = Runner::from_schema(sc, None, ScriptEngine::Rhai);
    assert!(matches!(r.build_env(), Err(RunnerError::InterpolationError { .. })));
}

#[test]
fn runtime_overrides_take_precedence() {
    let mut sc = schema("root.yaml");
    sc.env = vec![(s("token"), var("old"))];
    let mut r = Runner::from_schema(sc, None, ScriptEngine::Rhai);
    r.finish_script(Ok(vec![(s("token"), Value::Str(s("new")))])).unwrap();
    assert_eq!(text(&r.build_env().unwrap()[0].1), s("new"));
    assert!(matches!(
        r.finish_script(Err(s("boom"))),
        Err(RunnerError::ScriptExecutionError { .. })
    ));
    assert_eq!(r.overrides().len(), 1);
}

#[test]
fn strict_interpolation_of_undefined_name_fails() {
    let env = vec![(s("a"), Value::Str(s("1")))];
    assert!(matches!(
        interpolate_string("x{{b}}y", &env),
        Err(RunnerError::InterpolationError { .. })
    ));
    assert!(matches!(
        interpolate_string("x{{a", &env),
        Err(RunnerError::InterpolationError { .. })
    ));
}

#[test]
fn strict_interpolation_substitutes_exactly() {
    let env = vec![
        (s("a"), Value::Str(s("1"))),
        (s("n"), Value::Number(s("42"))),
        (s("t"), Value::Bool(true)),
        (s("z"), Value::Null),
    ];
    assert_eq!(interpolate_string("x{{a}}y", &env).unwrap(), s("x1y"));
    assert_eq!(interpolate_string("{{n}}/{{t}}/{{z}}", &env).unwrap(), s("42/true/null"));
    assert_eq!(interpolate_string("no refs { } }}", &env).unwrap(), s("no refs { } }}"));
    assert_eq!(interpolate_string("", &env).unwrap(), s(""));
    assert_eq!(interpolate_string("é{{a}}ü", &env).unwrap(), s("é1ü"));
}

#[test]
fn non_scalar_reference_fails() {
    let env = vec![(s("l"), Value::List(vec![Value::Null]))];
    assert!(interpolate_string("{{l}}", &env).is_err());
}

#[test]
fn value_interpolation_keeps_structure() {
    let env = vec![(s("a"), Value::Str(s("1")))];
    let v = Value::Mapping(vec![
        (s("k"), Value::Str(s("<{{a}}>"))),
        (s("n"), Value::Number(s("7"))),
        (s("l"), Value::List(vec![Value::Str(s("{{a}}{{a}}")), Value::Bool(false)])),
    ]);
    match interpolate_value(&v, &env).unwrap() {
        Value::Mapping(es) => {
            assert_eq!(es.len(), 3);
            assert_eq!(es[0].0, s("k"));
            assert_eq!(text(&es[0].1), s("<1>"));
            assert!(matches!(&es[1].1, Value::Number(x) if x == "7"));
            match &es[2].1 {
                Value::List(items) => {
                    assert_eq!(text(&items[0]), s("11"));
                    assert!(matches!(items[1], Value::Bool(false)));
                }
                other => panic!("unexpected: {:?}", other),
            }
        }
        other => panic!("unexpected: {:?}", other),
    }
}

fn to_json(v: &Value) -> serde_json::Value {
    match v {
        Value::Null => serde_json::Value::Null,
        Value::Bool(b) => serde_json::Value::Bool(*b),
        Value::Number(n) => serde_json::from_str(n).unwrap(),
        Value::Str(x) => serde_json::Value::String(x.clone()),
        Value::List(items) => serde_json::Value::Array(items.iter().map(to_json).collect()),
        Value::Mapping(es) => {
            let mut m = serde_json::Map::new();
            for (k, x) in es {
                m.insert(k.clone(), to_json(x));
            }
            serde_json::Value::Object(m)
        }
    }
}

#[test]
fn json_body_round_trips() {
    let content = Value::Mapping(vec![
        (s("user"), Value::Str(s("{{name}}"))),
        (s("age"), Value::Number(s("30"))),
        (s("tags"), Value::List(vec![Value::Str(s("x-{{name}}")), Value::Null])),
    ]);
    let mut sc = schema("root.yaml");
    sc.env = vec![(s("name"), var("ada"))];
    let mut req = request("http://example.com/users", &[]);
    req.method = s("POST");
    req.body = Some(RequestBody::Json { content: content.clone() });
    let r = Runner::from_schema(sc, None, ScriptEngine::Rhai);
    let built = r.build_request(&req).unwrap();
    let env = r.build_env().unwrap();
    let expected = to_json(&interpolate_value(&content, &env).unwrap());
    match built.body {
        Some(BuiltBody::Json(v)) => {
            let bytes = serde_json::to_vec(&to_json(&v)).unwrap();
            let back: serde_json::Value = serde_json::from_slice(&bytes).unwrap();
            assert_eq!(back, expected);
            assert_eq!(back["user"], serde_json::Value::String(s("ada")));
            assert_eq!(back["tags"][0], serde_json::Value::String(s("x-ada")));
        }
        other => panic!("unexpected: {:?}", other),
    }
}

#[test]
fn builds_url_method_headers_and_query() {
    let mut sc = schema("root.yaml");
    sc.env = vec![(s("host"), var("example.com")), (s("tok"), var("abc"))];
    let mut req = request("https://{{host}}/items", &[]);
    req.method = s("PATCH");
    req.headers = Some(vec![(s("Authorization"), s("Bearer {{tok}}"))]);
    req.query = Some(vec![(s("q"), s("{{host}}"))]);
    req.body = Some(RequestBody::Text { content: s("hello {{tok}}") });
    let r = Runner::from_schema(sc, None, ScriptEngine::Rhai);
    let built = r.build_request(&req).unwrap();
    assert_eq!(built.url_text, s("https://example.com/items"));
    assert_eq!(built.method, s("PATCH"));
    assert_eq!(built.headers, vec![(s("Authorization"), s("Bearer abc"))]);
    assert_eq!(built.query, vec![(s("q"), s("example.com"))]);
    assert!(matches!(built.body, Some(BuiltBody::Raw(ref x)) if x == "hello abc"));
}

#[test]
fn malformed_url_is_rejected() {
    let r = runner_with(vec![]);
    let req = request("not a url", &[]);
    match r.build_request(&req) {
        Err(RunnerError::MalformedUrl { url }) => assert_eq!(url, s("not a url")),
        other => panic!("unexpected: {:?}", other),
    }
}

#[test]
fn invalid_method_is_rejected() {
    let r = runner_with(vec![]);
    let mut req = request("http://example.com", &[]);
    req.method = s("GE T");
    assert!(matches!(r.build_request(&req), Err(RunnerError::InvalidMethod { .. })));
    req.method = s("FOO");
    assert!(matches!(r.build_request(&req), Err(RunnerError::InvalidMethod { .. })));
    req.method = s("get");
    assert!(matches!(r.build_request(&req), Err(RunnerError::InvalidMethod { .. })));
    req.method = s("DELETE");
    assert_eq!(r.build_request(&req).unwrap().method, s("DELETE"));
}

#[test]
fn undefined_url_variable_is_interpolation_error() {
    let r = runner_with(vec![]);
    let req = request("http://{{missing}}/", &[]);
    assert!(matches!(r.build_request(&req), Err(RunnerError::InterpolationError { .. })));
}

#[test]
fn graphql_body_omits_absent_variables() {
    let mut sc = schema("root.yaml");
    sc.env = vec![(s("id"), var("7"))];
    let r = Runner::from_schema(sc, None, ScriptEngine::Rhai);
    let mut req = request("http://example.com/graphql", &[]);
    req.body = Some(RequestBody::Graphql { query: s("{ user(id: {{id}}) }"), variables: None });
    match r.build_request(&req).unwrap().body {
        Some(BuiltBody::Json(Value::Mapping(es))) => {
            assert_eq!(es.len(), 1);
            assert_eq!(es[0].0, s("query"));
            assert_eq!(text(&es[0].1), s("{ user(id: 7) }"));
        }
        other => panic!("unexpected: {:?}", other),
    }
    req.body = Some(RequestBody::Graphql {
        query: s("q"),
        variables: Some(Value::Mapping(vec![(s("id"), Value::Str(s("{{id}}")))])),
    });
    match r.build_request(&req).unwrap().body {
        Some(BuiltBody::Json(Value::Mapping(es))) => {
            assert_eq!(es.len(), 2);
            assert_eq!(es[1].0, s("variables"));
            assert_eq!(to_json(&es[1].1), serde_json::from_str::<serde_json::Value>(r#"{"id":"7"}"#).unwrap());
        }
        other => panic!("unexpected: {:?}", other),
    }
}

#[test]
fn multipart_parts_are_interpolated() {
    let mut sc = schema("root.yaml");
    sc.env = vec![(s("dir"), var("/tmp/up")), (s("kind"), var("text/plain"))];
    let r = Runner::from_schema(sc, None, ScriptEngine::Rhai);
    let mut req = request("http://example.com/upload", &[]);
    req.body = Some(RequestBody::Multipart {
        parts: vec![
            MultipartPart::Field { name: s("title"), value: s("in {{dir}}") },
            MultipartPart::File {
                name: s("doc"),
                path: s("{{dir}}/a.txt"),
                mime_type: Some(s("{{kind}}")),
            },
        ],
    });
    match r.build_request(&req).unwrap().body {
        Some(BuiltBody::Multipart(parts)) => {
            assert_eq!(parts.len(), 2);
            assert!(matches!(&parts[0], BuiltPart::Text { name, value } if name == "title" && value == "in /tmp/up"));
            assert!(matches!(&parts[1], BuiltPart::File { name, path, mime_type: Some(m) }
                if name == "doc" && path == "/tmp/up/a.txt" && m == "text/plain"));
        }
        other => panic!("unexpected: {:?}", other),
    }
}

#[test]
fn unsupported_script_languages_fail_without_side_effects() {
    let r = runner_with(vec![]);
    for script in [Script::Javascript { content: s("x = 1") }, Script::Lua { content: s("x = 1") }] {
        assert!(matches!(
            r.run_request_script(&script),
            Err(RunnerError::UnsupportedScriptLanguage { .. })
        ));
        assert!(r.overrides().is_empty());
    }
    let rhai = Script::Rhai { content: s("let x = 1;") };
    assert_eq!(r.run_request_script(&rhai).unwrap(), &s("let x = 1;"));
    let none = Runner::from_schema(schema("f"), None, ScriptEngine::Absent);
    assert!(matches!(
        none.run_request_script(&rhai),
        Err(RunnerError::ScriptExecutionError { .. })
    ));
}

#[test]
fn request_lookup() {
    let r = runner_with(vec![(s("A"), request("http://a", &[]))]);
    assert_eq!(r.get_request_schema(&s("A")).unwrap().url, s("http://a"));
    assert!(matches!(r.get_request_schema(&s("B")), Err(RunnerError::RequestNotFound { .. })));
}

#[test]
fn disjoint_merge_is_union() {
    let mut root = schema("root.yaml");
    root.env = vec![(s("a"), var("1"))];
    root.requests = vec![(s("r1"), request("http://a", &[]))];
    let mut imp = schema("imp.yaml");
    imp.env = vec![(s("b"), var("2")), (s("c"), var("3"))];
    imp.requests = vec![(s("r2"), request("http://b", &[]))];
    imp.calls = vec![(s("seq"), vec![s("r1")])];
    root.attribute_to_file();
    imp.attribute_to_file();
    merge_schema(&mut root, imp).unwrap();
    assert_eq!(root.env_origins, vec![s("root.yaml"), s("imp.yaml"), s("imp.yaml")]);
    assert_eq!(root.env.len(), 3);
    assert_eq!(root.requests.len(), 2);
    assert_eq!(root.calls.len(), 1);
    assert_eq!(root.filename, s("root.yaml"));
}

#[test]
fn shared_name_is_a_conflict() {
    let mut root = schema("root.yaml");
    root.requests = vec![(s("login"), request("http://a", &[]))];
    let mut imp = schema("auth.yaml");
    imp.env = vec![(s("x"), var("1"))];
    imp.requests = vec![(s("login"), request("http://b", &[]))];
    root.attribute_to_file();
    imp.attribute_to_file();
    match merge_schema(&mut root, imp) {
        Err(RunnerError::NameConflict { kind, key, existing, incoming }) => {
            assert_eq!(kind, s("request"));
            assert_eq!(key, s("login"));
            assert_eq!(existing, s("root.yaml"));
            assert_eq!(incoming, s("auth.yaml"));
        }
        other => panic!("unexpected: {:?}", other),
    }
    assert!(root.env.is_empty());
}

#[test]
fn project_only_in_root() {
    let mut sc = schema("child.yaml");
    sc.project = Some(Project {
        name: s("p"),
        version: String::new(),
        description: String::new(),
        authors: vec![],
        generator: None,
        default_env: None,
    });
    assert!(check_project_placement(&sc, true).is_ok());
    assert!(matches!(
        check_project_placement(&sc, false),
        Err(RunnerError::MisplacedProjectDefinition { .. })
    ));
    assert!(Runner::new(sc, "child.yaml", None, ScriptEngine::Rhai, true).is_ok());
    assert!(matches!(
        Runner::new(schema("x.yaml"), "x.yaml", None, ScriptEngine::Rhai, true),
        Err(RunnerError::MissingProjectDefinition { .. })
    ));
}

#[test]
fn import_cycle_is_detected() {
    let active = vec![s("a.yaml"), s("b.yaml")];
    assert!(check_import_cycle(&active, &s("c.yaml")).is_ok());
    match check_import_cycle(&active, &s("a.yaml")) {
        Err(RunnerError::ImportCycle { trace }) => {
            assert_eq!(trace, vec![s("a.yaml"), s("b.yaml"), s("a.yaml")])
        }
        other => panic!("unexpected: {:?}", other),
    }
}

#[test]
fn two_imports_sharing_a_name_are_both_named() {
    let mut root = schema("root.yaml");
    root.attribute_to_file();
    let mut first = schema("first.yaml");
    first.requests = vec![(s("ping"), request("http://a", &[]))];
    first.attribute_to_file();
    let mut second = schema("second.yaml");
    second.requests = vec![(s("ping"), request("http://b", &[]))];
    second.attribute_to_file();
    merge_schema(&mut root, first).unwrap();
    match merge_schema(&mut root, second) {
        Err(RunnerError::NameConflict { key, existing, incoming, .. }) => {
            assert_eq!(key, s("ping"));
            assert_eq!(existing, s("first.yaml"));
            assert_eq!(incoming, s("second.yaml"));
        }
        other => panic!("unexpected: {:?}", other),
    }
}

#[test]
fn nested_import_conflict_names_declaring_file() {
    let mut root = schema("root.yaml");
    root.env = vec![(s("host"), var("a"))];
    root.attribute_to_file();
    let mut mid = schema("mid.yaml");
    mid.attribute_to_file();
    let mut leaf = schema("leaf.yaml");
    leaf.env = vec![(s("host"), var("b"))];
    leaf.attribute_to_file();
    merge_schema(&mut mid, leaf).unwrap();
    match merge_schema(&mut root, mid) {
        Err(RunnerError::NameConflict { kind, existing, incoming, .. }) => {
            assert_eq!(kind, s("env"));
            assert_eq!(existing, s("root.yaml"));
            assert_eq!(incoming, s("leaf.yaml"));
        }
        other => panic!("unexpected: {:?}", other),
    }
}

#[test]
fn environment_named_default_is_refused() {
    for name in ["default", "Default", "DEFAULT"] {
        assert!(matches!(
            Runner::new(schema("x.yaml"), "x.yaml", Some(s(name)), ScriptEngine::Rhai, false),
            Err(RunnerError::ReservedEnvironmentName { .. })
        ));
    }
    assert!(Runner::new(schema("x.yaml"), "x.yaml", Some(s("defaults")), ScriptEngine::Rhai, false).is_ok());
    match Runner::new(schema("x.yaml"), "x.yaml", None, ScriptEngine::Rhai, true) {
        Err(RunnerError::MissingProjectDefinition { file }) => assert_eq!(file, s("x.yaml")),
        other => panic!("unexpected: {:?}", other.err()),
    }
}

#[test]
fn unsupported_pre_hook_aborts_the_call() {
    let mut req = request("http://a", &[]);
    req.script = Some(RequestScriptConfig {
        post_request: None,
        pre_request: Some(Script::Lua { content: s("x = 1") }),
    });
    let mut r = runner_with(vec![(s("A"), req)]);
    let (phase, action) = r.call_step(&s("A"), CallPhase::Idle, CallEvent::Begin);
    assert_eq!(phase, CallPhase::Failed);
    assert!(matches!(action, CallAction::Abort(RunnerError::UnsupportedScriptLanguage { .. })));
    assert!(r.overrides().is_empty());
}

#[test]
fn call_without_hooks_sends_then_completes() {
    let mut r = runner_with(vec![(s("A"), request("http://a.test/x", &[]))]);
    let (phase, action) = r.call_step(&s("A"), CallPhase::Idle, CallEvent::Begin);
    assert_eq!(phase, CallPhase::Executing);
    assert!(matches!(action, CallAction::Send(ref b) if b.url_text == "http://a.test/x"));
    let (phase, action) = r.call_step(&s("A"), phase, CallEvent::Sent(Ok(())));
    assert_eq!(phase, CallPhase::Done);
    assert!(matches!(action, CallAction::Complete));
    let (phase, action) = r.call_step(&s("A"), CallPhase::Executing, CallEvent::Sent(Err(s("down"))));
    assert_eq!(phase, CallPhase::Failed);
    assert!(matches!(action, CallAction::Abort(RunnerError::TransportError { .. })));
}
