use nefor_mag::frontend::{syntax_for_path, SyntaxMode};
use nefor_mag::lisp::compile_source;
use nefor_mag::resolver::{
    import_suggestion, import_suggestions, is_inside, module_identity, module_stem, path_escapes,
    resolve_json, resolve_module, resolve_workspace_path, ReadModule, ResolvedModule,
};
use nefor_mag::templates::{replace_text, strip_margin, trim_colons};

#[test]
fn paths_stay_below_their_root() {
    for path in ["/a", "..", "../a", "a/..", "a/../b"] {
        assert!(path_escapes(path), "{path}");
        let error = resolve_workspace_path("/w", path, "/w", Some("/w")).unwrap_err().text();
        assert_eq!(error, format!("evaluation error: path escapes workspace: {path}"));
    }
    for path in ["a", "a/b", "..a", "a..", "a/...", ""] {
        assert!(!path_escapes(path), "{path}");
        let found = resolve_workspace_path("/w", path, "/w", Some("/w")).unwrap();
        assert_eq!(found, format!("/w/{path}"));
        assert_eq!(resolve_workspace_path("", path, "", None).unwrap(), path);
        assert_eq!(resolve_workspace_path("/", path, "/", Some("/")).unwrap(), format!("/{path}"));
    }
}

#[test]
fn a_linked_directory_does_not_lead_out_of_its_root() {
    let resolve = |parent: &str| resolve_workspace_path("/w", "d/f", "/real/w", Some(parent));
    assert_eq!(resolve("/real/w/d").unwrap(), "/w/d/f");
    assert_eq!(resolve("/real//w/./e/d/").unwrap(), "/w/d/f");
    for parent in ["/elsewhere", "/real/wide/d", "/real", "real/w/d", ""] {
        assert_eq!(
            resolve(parent).unwrap_err().text(),
            "evaluation error: path escapes workspace: d/f",
            "{parent}"
        );
    }
    assert!(is_inside("a/b", "a/"));
    assert!(is_inside("a", ""));
    assert!(!is_inside("a/b", "./a"));
}

#[test]
fn suggestions_of_all_modules_are_in_order_and_given_once() {
    let module = |identity: &str, source: &str| ReadModule {
        identity: identity.to_owned(),
        forms: compile_source(source).unwrap().forms,
    };
    let modules = vec![
        module("z", "(let answer 1)"),
        module("a", "(let other 1)"),
        module("m", "(let answer 2)"),
        module("m", "(let answer 2)"),
    ];
    assert_eq!(
        import_suggestions(&modules, "answer"),
        ["import m.{answer}".to_owned(), "import z.{answer}".to_owned()]
    );
    assert_eq!(import_suggestions(&modules, "m.answer"), ["import m.{}".to_owned()]);
    assert!(import_suggestions(&modules, "q.answer").is_empty());
    assert!(import_suggestions(&vec![], "answer").is_empty());
}

#[test]
fn module_names_lead_to_files() {
    assert_eq!(module_stem("a.b-c.d_1").unwrap(), "a/b-c/d_1");
    for name in ["", ".", "a.", "a..b", "a b", "a/b", "\u{e9}"] {
        assert_eq!(
            module_stem(name).unwrap_err().text(),
            format!("evaluation error: invalid module name: {name}")
        );
    }
    let file = |path: &str, syntax| ResolvedModule { path: path.to_owned(), syntax };
    let one = resolve_module("m", &vec![file("/r/m.magl", SyntaxMode::Lisp)]).unwrap();
    assert_eq!(one.path, "/r/m.magl");
    assert_eq!(
        resolve_module("m", &vec![]).unwrap_err().text(),
        "evaluation error: cannot find module m in search roots"
    );
    let two = vec![file("/r/m.mag", SyntaxMode::New), file("/q/m.mag", SyntaxMode::New)];
    assert!(resolve_module("m", &two).unwrap_err().text().contains("is ambiguous"));
    let again = vec![file("/r/m.mag", SyntaxMode::New), file("/r/m.mag", SyntaxMode::New)];
    assert_eq!(resolve_module("m", &again).unwrap().path, "/r/m.mag");
    let linked = vec![file("/r/m.mag", SyntaxMode::New), file("/r/m.mag", SyntaxMode::Lisp)];
    assert_eq!(
        resolve_module("m", &linked).unwrap_err().text(),
        "evaluation error: module m is ambiguous across search roots or syntax suffixes: \
         /r/m.mag, /r/m.mag"
    );
    assert!(matches!(syntax_for_path("x/m.mag"), Ok(SyntaxMode::New)));
    assert!(matches!(syntax_for_path("m.magl"), Ok(SyntaxMode::Lisp)));
    assert!(syntax_for_path("m.txt").is_err());
    assert!(syntax_for_path("mag").is_err());
}

#[test]
fn files_below_a_root_are_modules_by_their_path() {
    assert_eq!(module_identity("a/b-c.mag"), Some("a.b-c".to_owned()));
    assert_eq!(module_identity("m.magl"), Some("m".to_owned()));
    for path in ["m.txt", "m", "a b.mag", ".mag", "a//b.mag", ""] {
        assert_eq!(module_identity(path), None, "{path}");
    }
}

#[test]
fn data_is_found_once() {
    assert_eq!(resolve_json("d", &vec!["/r/d".to_owned()]).unwrap(), "/r/d");
    assert_eq!(
        resolve_json("d", &vec![]).unwrap_err().text(),
        "evaluation error: cannot find JSON data d in source or module roots"
    );
    assert_eq!(
        resolve_json("d", &vec!["/r/d".to_owned(), "/q/d".to_owned()]).unwrap_err().text(),
        "evaluation error: JSON data d is ambiguous across source and module roots: /q/d, /r/d"
    );
}

#[test]
fn files_are_told_apart_and_ordered_by_the_parts_of_their_paths() {
    let paths = |all: &[&str]| all.iter().map(|p| p.to_string()).collect::<Vec<String>>();
    assert_eq!(
        resolve_json("d", &paths(&["/a-b/d", "/a/d", "/a.b/d"])).unwrap_err().text(),
        "evaluation error: JSON data d is ambiguous across source and module roots: \
         /a/d, /a-b/d, /a.b/d"
    );
    assert_eq!(resolve_json("d", &paths(&["/a//d", "/a/d", "/a/./d"])).unwrap(), "/a//d");
    let file = |path: &str| ResolvedModule { path: path.to_owned(), syntax: SyntaxMode::New };
    assert_eq!(
        resolve_module("m", &vec![file("/a-b/m.mag"), file("/a/m.mag")]).unwrap_err().text(),
        "evaluation error: module m is ambiguous across search roots or syntax suffixes: \
         /a/m.mag, /a-b/m.mag"
    );
    assert!(resolve_module("m", &vec![file("/a/m.mag"), file("/a//m.mag")]).is_ok());
}

#[test]
fn imports_are_suggested_for_what_modules_declare() {
    let module = compile_source("(type T Int) (let answer 42) (artifact {})").unwrap();
    let suggest = |name: &str| import_suggestion("support", &module.forms, name);
    assert_eq!(suggest("answer"), Some("import support.{answer}".to_owned()));
    assert_eq!(suggest("T"), Some("import support.{T}".to_owned()));
    assert_eq!(suggest("support.answer"), Some("import support.{}".to_owned()));
    assert_eq!(suggest("other.answer"), None);
    assert_eq!(suggest("missing"), None);
}

#[test]
fn margins_and_replacements() {
    assert_eq!(strip_margin("a\n  |b\n\t| c\n x|d\n"), "a\nb\n c\n x|d\n");
    assert_eq!(strip_margin("\u{2003}|wide"), "wide");
    assert_eq!(replace_text("aXbX", "X", "--"), "a--b--");
    assert_eq!(replace_text("aaa", "aa", "b"), "ba");
    assert_eq!(trim_colons("::key"), "key");
}
