use nefor_mag::build_request;
use nefor_mag::diagnostics::{load_inputs, mag_diagnostic, parse_input, path_diagnostic};
use nefor_mag::error::{MagError, SyntaxDiagnostic};
use nefor_mag::json::Json;
use nefor_mag::limits::CompilerLimits;
use nefor_mag::observation::{ObservationSet, Query};
use nefor_mag::project_cache::{
    cold_status, destination, load_record, make_provenance, record_name, record_order,
    serialize_artifact, CachePolicy, CacheStatus, CompilerBuildId, Identity, Provenance,
};
use nefor_mag::project_config::{
    join_path, module_roots, prepare, require_directory, Manifest, PathState, ProjectConfig,
};
use nefor_mag::wire::{parse_json, render};

const EMPTY_DIGEST: &str = "e3b0c44298fc1c149afbf4c8996fb92427ae41e4649b934ca495991b7852b855";

fn compiler() -> CompilerBuildId {
    CompilerBuildId::from_executable_bytes(&b"abc".to_vec())
}

fn identity(entry: &str, steps: u64) -> Identity {
    Identity::new(
        Some("/project"),
        entry,
        &vec![Some("/project".to_owned()), Some("/lib".to_owned())],
        &parse_json(r#"{"config":{"b":1,"a":2}}"#).unwrap(),
        1,
        CompilerLimits::from(steps),
        compiler(),
    )
    .unwrap()
}

fn provenance(artifact: &Vec<u8>) -> Provenance {
    let mut observations = ObservationSet::new(None);
    observations.record(Query::entry("/project", "main.mag"), "/project/main.mag", "/m", "(x)");
    make_provenance(identity("main.mag", 10), observations, artifact)
}

#[test]
fn compilers_are_told_apart_by_their_bytes() {
    assert_eq!(
        compiler().0,
        "ba7816bf8f01cfea414140de5dae2223b00361a396177a9cb410ff61f20015ad"
    );
    assert_eq!(CompilerBuildId::from_executable_bytes(&vec![]).0, EMPTY_DIGEST);
}

#[test]
fn relative_and_unspeakable_paths_have_no_identity() {
    let inputs = Json::Object(vec![]);
    let limits = CompilerLimits::default();
    let some = |s: &str| Some(s.to_owned());
    assert!(Identity::new(Some("project"), "m", &vec![], &inputs, 1, limits, compiler()).is_none());
    assert!(Identity::new(None, "m", &vec![], &inputs, 1, limits, compiler()).is_none());
    let relative = vec![some("/a"), some("b")];
    assert!(Identity::new(Some("/p"), "m", &relative, &inputs, 1, limits, compiler()).is_none());
    let unspeakable = vec![some("/a"), None];
    assert!(Identity::new(Some("/p"), "m", &unspeakable, &inputs, 1, limits, compiler()).is_none());
}

#[test]
fn contexts_have_buckets_of_their_own() {
    let one = identity("main.mag", 10).bucket();
    assert_eq!(one.len(), 3);
    assert_eq!(one[0], "v1");
    assert_eq!(one[1], compiler().0);
    assert!(record_name(&one[2]));
    assert_eq!(one, identity("main.mag", 10).bucket());
    assert_ne!(one, identity("other.mag", 10).bucket());
    assert_ne!(one, identity("main.mag", 11).bucket());
    assert!(identity("main.mag", 10).equals(&identity("main.mag", 10)));
    assert!(!identity("main.mag", 10).equals(&identity("main.mag", 11)));
}

#[test]
fn artifacts_are_one_line() {
    let artifact = parse_json(r#"{"text":"a\nb"}"#).unwrap();
    let bytes = serialize_artifact(&artifact);
    assert_eq!(bytes, b"{\"text\":\"a\\nb\"}\n");
}

#[test]
fn a_stored_artifact_answers_its_request_and_nothing_else() {
    let artifact = serialize_artifact(&parse_json(r#"{"a":1}"#).unwrap());
    let provenance = provenance(&artifact);
    let sidecar = b"sidecar".to_vec();
    let name = destination(&sidecar);
    let request = identity("main.mag", 10);
    let answers = |name: &str, sidecar: &Vec<u8>, request: &Identity, artifact: &Vec<u8>, fresh| {
        load_record(name, sidecar, &provenance, request, artifact, fresh)
    };
    assert!(answers(&name, &sidecar, &request, &artifact, true));
    assert!(!answers(&name, &sidecar, &request, &artifact, false));
    assert!(!answers(EMPTY_DIGEST, &sidecar, &request, &artifact, true));
    assert!(!answers(&name, &b"other".to_vec(), &request, &artifact, true));
    assert!(!answers(&name, &sidecar, &identity("other.mag", 10), &artifact, true));
    assert!(!answers(&name, &sidecar, &request, &b"{\"a\":2}\n".to_vec(), true));
}

#[test]
fn damaged_artifacts_are_not_answers() {
    let sidecar = b"sidecar".to_vec();
    let name = destination(&sidecar);
    let request = identity("main.mag", 10);
    let texts: [&[u8]; 6] =
        [b"{}", b"{}\n{}\n", b"{\n", b"\xff\n", b"{} {}\n", b"[\"\xc3\x28\"]\n"];
    for bytes in texts {
        let artifact = bytes.to_vec();
        let provenance = provenance(&artifact);
        assert!(
            !load_record(&name, &sidecar, &provenance, &request, &artifact, true),
            "{bytes:?}"
        );
    }
    let artifact = b"{}\n".to_vec();
    let mut provenance = provenance(&artifact);
    provenance.format = "other".to_owned();
    assert!(!load_record(&name, &sidecar, &provenance, &request, &artifact, true));
}

#[test]
fn records_are_tried_in_the_order_of_their_names() {
    let b = "b".repeat(64);
    let a = "a".repeat(64);
    let names = vec![b.clone(), ".tmp-1-0".to_owned(), a.clone(), "A".repeat(64), b.clone()];
    assert_eq!(record_order(&names), vec![a, b]);
    assert!(!record_name("abc"));
    assert_eq!(destination(&vec![]), EMPTY_DIGEST);
}

#[test]
fn cold_builds_say_why() {
    assert!(matches!(cold_status(CachePolicy::Bypass, true), CacheStatus::Bypass));
    assert!(matches!(cold_status(CachePolicy::Use, true), CacheStatus::Miss));
    assert!(matches!(cold_status(CachePolicy::Use, false), CacheStatus::Unavailable));
}

fn parsed(version: u32, roots: &[&str]) -> Manifest {
    Manifest::Parsed(ProjectConfig {
        version,
        module_roots: roots.iter().map(|s| s.to_string()).collect(),
    })
}

#[test]
fn projects_are_prepared_with_their_roots_in_order() {
    let states = vec![
        ("/p".to_owned(), PathState::Directory),
        ("/p/lib".to_owned(), PathState::Directory),
        ("/abs".to_owned(), PathState::Directory),
        ("/p/x".to_owned(), PathState::Other),
    ];
    let project = prepare("/p", &vec!["/abs".to_owned()], &parsed(1, &["lib"]), &states).unwrap();
    assert_eq!(project.module_roots, ["/p", "/p/lib", "/abs"]);
    assert_eq!(project.config_version, 1);
    assert_eq!(
        module_roots("/p", &vec!["lib".to_owned()], &vec!["/abs".to_owned()]),
        ["/p", "/p/lib", "/abs"]
    );
    assert_eq!(join_path("/p", "x"), "/p/x");
    assert_eq!(join_path("/p", "/x"), "/x");

    let code = |manifest: Manifest, extra: &[&str]| {
        let extra = extra.iter().map(|s| s.to_string()).collect();
        prepare("/p", &extra, &manifest, &states).unwrap_err().code
    };
    assert_eq!(code(parsed(2, &[]), &[]), "project_version");
    assert_eq!(code(Manifest::Unreadable("gone".to_owned()), &[]), "project_read");
    assert_eq!(code(Manifest::Malformed("bad".to_owned()), &[]), "project_config");
    assert_eq!(code(parsed(1, &["x"]), &[]), "path_not_directory");
    let gone = PathState::Unavailable("gone".to_owned());
    let error = require_directory("/q", "project", &gone).unwrap_err();
    assert_eq!(error.code, "path_unavailable");
    assert_eq!(error.message, "cannot access project /q: gone");
}

#[test]
fn build_requests_carry_everything_on() {
    let states = vec![("/cwd/app".to_owned(), PathState::Directory)];
    let request = build_request::prepare(
        "/cwd",
        Some("app"),
        "main.mag".to_owned(),
        &vec![],
        &parsed(1, &[]),
        &states,
        Ok(Json::Bool(true)),
        build_request::options(Some(7), None, None, Some(0)),
    )
    .unwrap();
    let file = request.as_file_request();
    assert_eq!(file.source_dir, "/cwd/app");
    assert_eq!(file.entry, "main.mag");
    assert_eq!(file.module_roots, ["/cwd/app"]);
    assert_eq!(file.options.limits.evaluation_steps, 7);
    assert_eq!(file.options.limits.call_depth, 64);
    assert_eq!(file.options.limits.memoized_calls, 0);
    assert_eq!(build_request::project_root("/cwd", None), "/cwd");
}

#[test]
fn inputs_are_loaded_in_order_and_faults_reported() {
    let specs = |items: &[&str]| items.iter().map(|s| s.to_string()).collect::<Vec<_>>();
    let contents = vec![
        ("/r/z.json".to_owned(), Ok("{\"k\":1}".to_owned())),
        ("/r/a.json".to_owned(), Ok("[]".to_owned())),
        ("/r/bad.json".to_owned(), Ok("{".to_owned())),
        ("/r/gone.json".to_owned(), Err("no such file".to_owned())),
    ];
    let loaded =
        load_inputs(&specs(&["z=z.json", "a=a.json"]), Some("/r"), &contents).unwrap();
    assert_eq!(render(&loaded), r#"{"z":{"k":1},"a":[]}"#);
    let code = |items: &[&str]| load_inputs(&specs(items), Some("/r"), &contents).unwrap_err().code;
    assert_eq!(code(&["z"]), "input_argument");
    assert_eq!(code(&["=z.json"]), "input_argument");
    assert_eq!(code(&["z="]), "input_argument");
    assert_eq!(code(&["a=bad.json"]), "input_json");
    assert_eq!(code(&["a=gone.json"]), "input_read");
    let twice = load_inputs(&specs(&["a\"=a.json", "a\"=a.json"]), Some("/r"), &contents);
    let twice = twice.unwrap_err();
    assert_eq!(twice.code, "input_duplicate");
    assert_eq!(twice.message, "host input \"a\\\"\" was supplied more than once");
    assert_eq!(parse_input("n=a=b").unwrap(), ("n".to_owned(), "a=b".to_owned()));
}

#[test]
fn errors_are_reported_by_stage() {
    let report = |error: MagError| {
        let d = mag_diagnostic(&error);
        (d.code, d.stage, d.message)
    };
    let row = |a: &str, b: &str, c: &str| (a.to_owned(), b.to_owned(), c.to_owned());
    let m = || "m".to_owned();
    assert_eq!(report(MagError::Type(m())), row("type_error", "typecheck", "type error: m"));
    assert_eq!(
        report(MagError::Unresolved(m())),
        row("type_error", "typecheck", "unresolved symbol: m")
    );
    assert_eq!(
        report(MagError::Arity { expected: 2, got: 1 }),
        row("type_error", "typecheck", "arity mismatch: expected 2, got 1")
    );
    assert_eq!(
        report(MagError::Budget(m())),
        row("evaluation_budget", "evaluate", "budget exhausted: m")
    );
    assert_eq!(
        report(MagError::Eval(m())),
        row("evaluation_error", "evaluate", "evaluation error: m")
    );
    assert_eq!(report(MagError::Lex(m())), row("syntax_lex", "lex", "lex error: m"));
    assert_eq!(report(MagError::Parse(m())), row("syntax_parse", "parse", "parse error: m"));
    let syntax = MagError::Syntax(Box::new(SyntaxDiagnostic {
        code: "c".to_owned(),
        stage: "s".to_owned(),
        message: m(),
        path: Some("p".to_owned()),
        syntax: None,
    }));
    assert_eq!(mag_diagnostic(&syntax).path, Some("p".to_owned()));
    assert_eq!(report(syntax), row("c", "s", "m"));
    let path = path_diagnostic("c", "p", m());
    assert_eq!(path.stage, "input");
}
