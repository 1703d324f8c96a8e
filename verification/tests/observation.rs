use nefor_mag::frontend::SyntaxMode;
use nefor_mag::observation::{Evidence, Located, ObservationSet, Query};
use nefor_mag::resolver::ResolvedModule;

fn evidence(selected: &str, canonical: &str, bytes: &[u8]) -> Evidence {
    Evidence {
        selected: Some(selected.to_owned()),
        canonical: canonical.to_owned(),
        bytes: Some(bytes.to_vec()),
    }
}

#[test]
fn captured_buffers_are_not_replaced_by_later_disk_contents() {
    let mut set = ObservationSet::new(Some("/work".to_owned()));
    set.record(Query::entry(".", "Cargo.toml"), "Cargo.toml", "/work/Cargo.toml", "not the disk buffer");
    let disk = vec![evidence("Cargo.toml", "/work/Cargo.toml", b"the disk buffer")];
    assert!(!set.validate(Some("/work"), &disk));
}

#[test]
fn contradictory_consumption_is_not_publishable() {
    let mut set = ObservationSet::new(None);
    set.record(Query::entry(".", "Cargo.toml"), "Cargo.toml", "/Cargo.toml", "first");
    set.record(Query::entry(".", "Cargo.toml"), "Cargo.toml", "/Cargo.toml", "second");
    assert!(!set.consistent);
}

#[test]
fn aliased_queries_with_other_contents_are_not_publishable() {
    let mut set = ObservationSet::new(None);
    set.record(Query::entry("/a", "x"), "/a/x", "/real", "first");
    set.record(Query::read("/b", "x"), "/b/x", "/real", "second");
    assert!(!set.consistent);
    assert_eq!(set.records.len(), 2);
}

#[test]
fn fresh_evidence_confirms_and_any_change_does_not() {
    let mut set = ObservationSet::new(Some("/work".to_owned()));
    set.record(Query::entry("/root", "main.mag"), "/root/main.mag", "/root/main.mag", "text");
    set.record(Query::entry("/root", "main.mag"), "/root/main.mag", "/root/main.mag", "text");
    assert!(set.consistent);
    assert_eq!(set.records.len(), 1);
    let same = |bytes: &[u8]| vec![evidence("/root/main.mag", "/root/main.mag", bytes)];
    assert!(set.validate(None, &same(b"text")));
    assert!(!set.validate(None, &same(b"texT")));
    assert!(!set.validate(None, &vec![evidence("/other", "/root/main.mag", b"text")]));
    assert!(!set.validate(None, &vec![evidence("/root/main.mag", "/other", b"text")]));
    assert!(!set.validate(None, &vec![]));
}

#[test]
fn relative_roots_depend_on_the_current_directory() {
    let mut set = ObservationSet::new(Some("/work".to_owned()));
    set.record(Query::entry(".", "a"), "./a", "/work/a", "x");
    let disk = vec![evidence("./a", "/work/a", b"x")];
    assert!(set.validate(Some("/work"), &disk));
    assert!(!set.validate(Some("/elsewhere"), &disk));
    assert!(!set.validate(None, &disk));
}

#[test]
fn exactly_one_entry_is_needed() {
    let set = ObservationSet::new(None);
    assert!(!set.validate(None, &vec![]));
    let mut reads = ObservationSet::new(None);
    reads.record(Query::read("/r", "a"), "/r/a", "/r/a", "x");
    assert!(!reads.validate(None, &vec![evidence("/r/a", "/r/a", b"x")]));
}

#[test]
fn queries_resolve_by_their_kind() {
    let inside = Located::Path {
        canonical_root: "/r".to_owned(),
        canonical_parent: Some("/r".to_owned()),
    };
    assert_eq!(Query::entry("/r", "a").resolve(&inside), Some("/r/a".to_owned()));
    assert_eq!(Query::read("/r", "../a").resolve(&inside), None);
    let outside = Located::Path {
        canonical_root: "/r".to_owned(),
        canonical_parent: Some("/elsewhere".to_owned()),
    };
    assert_eq!(Query::read("/r", "a").resolve(&outside), None);
    let modules = Located::Module(vec![ResolvedModule {
        path: "/r/m.mag".to_owned(),
        syntax: SyntaxMode::New,
    }]);
    let roots = vec!["/r".to_owned()];
    assert_eq!(Query::module(&roots, "m").resolve(&modules), Some("/r/m.mag".to_owned()));
    assert_eq!(Query::module(&roots, "m!").resolve(&modules), None);
    let data = Located::Data(vec!["/r/d".to_owned(), "/q/d".to_owned()]);
    assert_eq!(Query::json(roots, "d").resolve(&data), None);
}
