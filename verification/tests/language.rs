use nefor_mag::program::Library;
use nefor_mag::session::compile;
use nefor_mag::wire::render;

fn run(source: &str) -> String {
    match compile(&Library::new(), source) {
        Ok(j) => render(&j),
        Err(e) => e.text(),
    }
}

fn value(expression: &str) -> String {
    run(&format!("(artifact {expression})"))
}

#[test]
fn collections() {
    assert_eq!(value("(canonical {:b 1 :a 2})"), r#""{\"a\":2,\"b\":1}""#);
    assert_eq!(value("(keys {:b 1 :a 2})"), r#"["a","b"]"#);
    assert_eq!(value("(concat [1] [2 3])"), "[1,2,3]");
    assert_eq!(value("(first [1 2])"), "1");
    assert_eq!(value("(first [])"), "type error: first expects List, got (List _)");
    assert_eq!(value("(assoc {:b 1} :b 2)"), r#"{"b":2}"#);
    assert_eq!(value("(assoc {:b 1} :c 2)"), "type error: cannot assoc Some(\"c\") into {:b Int}");
    assert_eq!(value("(get {:b 1} :b)"), "1");
    assert_eq!(value("(get {:b 1} :c)"), "type error: cannot get Some(\"c\") from {:b Int}");
    assert_eq!(value("(remove-at [1 2 3] 1)"), "[1,3]");
    assert_eq!(value("(count [1 2])"), "2");
}

#[test]
fn callbacks() {
    assert_eq!(
        value("(indexed-map (fn [[i Int] [x String]] -> String (str i x)) [\"a\" \"b\"])"),
        r#"["0a","1b"]"#
    );
    assert_eq!(value("(filter (fn [[x Int]] -> Bool (= x 1)) [1 2 1])"), "[1,1]");
    assert_eq!(value("(flat-map (fn [[x Int]] -> (List Int) [x x]) [1 2])"), "[1,1,2,2]");
    assert_eq!(
        value("(fold (fn [[acc String] [x Int]] -> String (str acc x)) \"\" [1 2 3])"),
        "\"123\""
    );
}

#[test]
fn logic_and_text() {
    assert_eq!(value("[(or false true) (not true) (= \"a\" \"b\") (= [1] [1])]"), "[true,false,false,true]");
    assert_eq!(value("(str 1 \" \" 2.5 true \"s\")"), "\"1 2.5trues\"");
    assert_eq!(value("(strip-margin \"a\\n  |b\")"), r#""a\nb""#);
    assert_eq!(value("(replace \"a-b\" \"-\" \"+\")"), "\"a+b\"");
    assert_eq!(value("{:a 1.5 :b -0.25 :c 1e3}"), r#"{"a":1.5,"b":-0.25,"c":1000.0}"#);
    assert_eq!(value("(fail \"boom\")"), "evaluation error: validation failed: \"boom\"");
    assert_eq!(value("(if true 1 2)"), "1");
    assert_eq!(value("(if 1 2 3)"), "type error: expected Bool, got Int");
    assert_eq!(value("[1 \"x\" {:a nil}]"), r#"[1,"x",{"a":null}]"#);
    assert_eq!(
        value("{:a [1 \"x\"]}"),
        "type error: list elements must have one compatible type, got Int and String"
    );
}

#[test]
fn evidence() {
    assert_eq!(value("(type-evidence (type-tag Int))"), r#"{"kind":"primitive","name":"Int"}"#);
    assert_eq!(value("(pack 1)"), r#"{"$mag":"packed-value","value":1}"#);
    assert_eq!(value("(packed-empty-record? (pack {}))"), "true");
    assert_eq!(value("(packed-record-has-only-key? (pack {:k 1}) \"k\")"), "true");
    assert_eq!(value("(packed-record-has-only-key? (pack {:k 1}) \"j\")"), "false");
    let int = "(type-evidence (type-tag Int))";
    let text = "(type-evidence (type-tag String))";
    assert_eq!(value(&format!("(descriptor-accepts? {int} {int})")), "true");
    assert_eq!(value(&format!("(descriptor-accepts? {int} {text})")), "false");
    assert_eq!(
        value("(function-name (fn [[x Int]] -> Int x))"),
        "evaluation error: function-name requires a function bound by let; anonymous closures have no resident identity"
    );
    assert_eq!(
        run("(let f (fn [[x Int]] -> Int x)) (artifact (function-name f))"),
        "\"f\""
    );
}

#[test]
fn declared_types() {
    let p = "(type P {:x Int :y Int})";
    assert_eq!(
        run(&format!("{p} (let p (as P {{:x 1 :y 2}})) (artifact {{:a (get p :x) :p p}})")),
        r#"{"a":1,"p":{"x":1,"y":2}}"#
    );
    assert_eq!(
        run(&format!("{p} (artifact (as P {{:x 1}}))")),
        "type error: value does not conform to main.P: missing fields: y"
    );
    let c = "(type C (adt [A Int] [B Unit]))";
    assert_eq!(
        run(&format!("{c} (artifact (construct C A 1))")),
        r#"{"constructor":"A","value":1}"#
    );
    assert_eq!(
        run(&format!("{c} (artifact (match (construct C A 1) [A n n]))")),
        "type error: non-exhaustive match; missing B"
    );
    assert_eq!(value("(as (+ Int String) [1 \"x\"])"), r#"[1,"x"]"#);
}

#[test]
fn overloads_and_generics() {
    assert_eq!(
        run("(let id (fn [T] [[x T]] -> T x)) (artifact {:a (id 1) :b (id \"s\")})"),
        r#"{"a":1,"b":"s"}"#
    );
    let f = "(let f (fn [[x Int]] -> Int x))";
    assert_eq!(
        run(&format!("{f} (let f (fn [[x String]] -> String x)) (artifact {{:a (f 1) :b (f \"s\")}})")),
        r#"{"a":1,"b":"s"}"#
    );
    assert_eq!(
        run(&format!("{f} {f} (artifact (f 1))")),
        "type error: duplicate visible overload f: (Fn Int Int)"
    );
    let eq = "(let eq (fn [T] [[a T] [b T]] -> Bool (= a b)))";
    assert_eq!(run(&format!("{eq} (artifact (eq 1 1))")), "true");
    assert_eq!(
        run(&format!("{eq} {f} (artifact (eq f f))")),
        "type error: function type (Fn Int Int) does not support equality"
    );
    assert_eq!(
        run("(let f (fn [[x Int] [y Int]] -> Int x)) (artifact (f 1))"),
        "arity mismatch: expected 2, got 1"
    );
    assert_eq!(
        run("(let f (fn [[x Int]] -> String x)) (artifact (f 1))"),
        "type error: function f returns Int, declared String: expected String, got Int"
    );
}

#[test]
fn bindings_are_lazy_and_acyclic() {
    assert_eq!(run("(let a b) (let b 1) (artifact a)"), "1");
    assert_eq!(
        run("(let a b) (let b a) (artifact a)"),
        "type error: cannot infer recursive strict bindings: a, b"
    );
    assert_eq!(run("1"), "evaluation error: top-level program must return Artifact, got int");
    assert_eq!(run("(artifact 1) (artifact 2)"), "2");
}
