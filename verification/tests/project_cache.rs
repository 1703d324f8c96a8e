use std::collections::BTreeMap;

use nefor_mag::error::MagError;
use nefor_mag::files::FileAnswer;
use nefor_mag::frontend::SyntaxMode;
use nefor_mag::json::Json;
use nefor_mag::limits::CompilerOptions;
use nefor_mag::lisp::compile_source;
use nefor_mag::observation::{Evidence, Located, ObservationSet, Operation, Query};
use nefor_mag::program::{compile_cold, make_program, Library, ModuleAnswer, Program};
use nefor_mag::project_cache::{
    cold_status, destination, load_record, make_provenance, record_order, serialize_artifact,
    CachePolicy, CacheStatus, CompilerBuildId, Identity, Provenance,
};
use nefor_mag::resolver::{module_stem, resolve_json, resolve_module, ResolvedModule};
use nefor_mag::wire::parse_json;
use nefor_mag::world::Wanted;

const ROOT: &str = "/project";

/// What is stored of a build: the provenance, its bytes where they are there, and the artifact.
struct Record {
    name: String,
    provenance: Provenance,
    sidecar: Option<Vec<u8>>,
    artifact: Option<Vec<u8>>,
}

/// A project and its storage, in memory.
struct Fixture {
    files: BTreeMap<String, String>,
    roots: Vec<Option<String>>,
    inputs: Json,
    options: CompilerOptions,
    storage: BTreeMap<Vec<String>, Vec<Record>>,
    writable: bool,
    compilations: usize,
}

struct Output {
    bytes: Vec<u8>,
    status: CacheStatus,
}

fn status(out: &Output, expected: &str) {
    let actual = match out.status {
        CacheStatus::Hit => "hit",
        CacheStatus::Miss => "miss",
        CacheStatus::Bypass => "bypass",
        CacheStatus::Unavailable => "unavailable",
    };
    assert_eq!(actual, expected);
}

fn compiler(bytes: &[u8]) -> CompilerBuildId {
    CompilerBuildId::from_executable_bytes(&bytes.to_vec())
}

fn sidecar_of(provenance: &Provenance) -> Vec<u8> {
    format!("{provenance:?}").into_bytes()
}

impl Fixture {
    fn new() -> Self {
        let mut this = Fixture {
            files: BTreeMap::new(),
            roots: vec![Some(ROOT.to_owned()), Some(format!("{ROOT}/extra"))],
            inputs: Json::Object(vec![]),
            options: CompilerOptions::default(),
            storage: BTreeMap::new(),
            writable: true,
            compilations: 0,
        };
        this.write(
            "main.mag",
            "(require \"a\")\n(artifact [a.value (read \"note.txt\") (read-json \"data.json\")])",
        );
        this.write("a.mag", "(require \"b\")\n(let value b.value)");
        this.write("b.mag", "(let value 1)");
        this.write("note.txt", "first");
        this.write("data.json", "{\"a\":1}");
        this
    }

    fn write(&mut self, path: &str, text: &str) {
        self.files.insert(format!("{ROOT}/{path}"), text.to_owned());
    }

    fn root_texts(&self) -> Vec<String> {
        self.roots.iter().flatten().cloned().collect()
    }

    fn module_files(&self, roots: &[String], name: &str) -> Vec<ResolvedModule> {
        let Ok(stem) = module_stem(name) else {
            return vec![];
        };
        let mut found = vec![];
        for root in roots {
            for (end, syntax) in [("mag", SyntaxMode::New), ("magl", SyntaxMode::Lisp)] {
                let path = format!("{root}/{stem}.{end}");
                if self.files.contains_key(&path) {
                    found.push(ResolvedModule { path, syntax });
                }
            }
        }
        found
    }

    fn data_files(&self, roots: &[String], path: &str) -> Vec<String> {
        let mut found: Vec<String> = roots
            .iter()
            .map(|root| format!("{root}/{path}"))
            .filter(|path| self.files.contains_key(path))
            .collect();
        found.sort();
        found.dedup();
        found
    }

    fn module(&self, name: &str, seen: &mut ObservationSet) -> Result<Program, MagError> {
        let roots = self.root_texts();
        let found = resolve_module(name, &self.module_files(&roots, name))?;
        let source = &self.files[&found.path];
        seen.record(Query::module(&roots, name), &found.path, &found.path, source);
        Ok(make_program(compile_source(source)?))
    }

    /// Compiles the program, and tells what it consumed.
    fn compile(&mut self) -> Result<(Json, ObservationSet), MagError> {
        self.compilations += 1;
        let mut seen = ObservationSet::new(None);
        let entry = format!("{ROOT}/main.mag");
        let Some(source) = self.files.get(&entry) else {
            return Err(MagError::Eval(format!("cannot read program {entry}: gone")));
        };
        seen.record(Query::entry(ROOT, "main.mag"), &entry, &entry, source);
        let program = make_program(compile_source(source)?);
        let mut library = Library::new();
        loop {
            let (world, result) =
                compile_cold(&library, &program, self.inputs.clone(), self.options.limits);
            match world.wanted {
                None => return result.map(|artifact| (artifact, seen)),
                Some(Wanted::Text(path)) => {
                    let full = format!("{ROOT}/{path}");
                    let answer = match self.files.get(&full) {
                        Some(text) => {
                            seen.record(Query::read(ROOT, &path), &full, &full, text);
                            FileAnswer::Text(text.clone())
                        }
                        None => FileAnswer::Failed("gone".to_owned()),
                    };
                    library.files.texts.push((path, answer));
                }
                Some(Wanted::Data(path)) => {
                    let mut roots = vec![ROOT.to_owned()];
                    roots.extend(self.root_texts());
                    let found = self.data_files(&roots, &path);
                    if let Ok(full) = resolve_json(&path, &found) {
                        let query = Query::json(roots, &path);
                        seen.record(query, &full, &full, &self.files[&full]);
                    }
                    let answers = found
                        .into_iter()
                        .map(|full| {
                            let text = self.files[&full].clone();
                            (full, FileAnswer::Text(text))
                        })
                        .collect();
                    library.files.data.push((path, answers));
                }
                Some(Wanted::Module(name)) => {
                    let answer = match self.module(&name, &mut seen) {
                        Ok(program) => ModuleAnswer::Found(program),
                        Err(error) => ModuleAnswer::Failed(error),
                    };
                    library.modules.push((name, answer));
                }
            }
        }
    }

    fn fresh(&self, set: &ObservationSet) -> bool {
        let evidence = set
            .records
            .iter()
            .map(|record| {
                let query = &record.query;
                let found = match query.kind {
                    Operation::Entry | Operation::Read => Located::Path {
                        canonical_root: query.roots[0].clone(),
                        canonical_parent: Some(query.roots[0].clone()),
                    },
                    Operation::Require => {
                        Located::Module(self.module_files(&query.roots, &query.requested))
                    }
                    Operation::ReadJson => {
                        Located::Data(self.data_files(&query.roots, &query.requested))
                    }
                };
                let selected = query.resolve(&found);
                let path = selected.clone().unwrap_or_default();
                Evidence {
                    selected,
                    canonical: path.clone(),
                    bytes: self.files.get(&path).map(|text| text.as_bytes().to_vec()),
                }
            })
            .collect();
        set.validate(None, &evidence)
    }

    fn identity_for(&self, version: u32, id: CompilerBuildId) -> Option<Identity> {
        Identity::new(
            Some(ROOT),
            "main.mag",
            &self.roots,
            &self.inputs,
            version,
            self.options.limits,
            id,
        )
    }

    fn identity(&self, bytes: &[u8]) -> Identity {
        self.identity_for(1, compiler(bytes)).unwrap()
    }

    fn lookup(&self, identity: &Identity) -> Option<Vec<u8>> {
        let records = self.storage.get(&identity.bucket())?;
        let names = records.iter().map(|record| record.name.clone()).collect();
        record_order(&names).into_iter().find_map(|name| {
            let record = records.iter().find(|record| record.name == name)?;
            let (sidecar, artifact) = (record.sidecar.as_ref()?, record.artifact.as_ref()?);
            let fresh = self.fresh(&record.provenance.observations);
            load_record(&name, sidecar, &record.provenance, identity, artifact, fresh)
                .then(|| artifact.clone())
        })
    }

    fn publish(&mut self, identity: Identity, seen: ObservationSet, bytes: &Vec<u8>) {
        if !self.writable || !self.fresh(&seen) {
            return;
        }
        let bucket = identity.bucket();
        let provenance = make_provenance(identity, seen, bytes);
        let sidecar = sidecar_of(&provenance);
        let name = destination(&sidecar);
        let records = self.storage.entry(bucket).or_default();
        if records.iter().all(|record| record.name != name) {
            records.push(Record {
                name,
                provenance,
                sidecar: Some(sidecar),
                artifact: Some(bytes.clone()),
            });
        }
    }

    fn build(
        &mut self,
        policy: CachePolicy,
        id: Option<CompilerBuildId>,
    ) -> Result<Output, MagError> {
        let identity = match policy {
            CachePolicy::Use => id.and_then(|id| self.identity_for(1, id)),
            CachePolicy::Bypass => None,
        };
        let status = cold_status(policy, identity.is_some());
        let Some(identity) = identity else {
            let (artifact, _) = self.compile()?;
            return Ok(Output { bytes: serialize_artifact(&artifact), status });
        };
        if let Some(bytes) = self.lookup(&identity) {
            return Ok(Output { bytes, status: CacheStatus::Hit });
        }
        let (artifact, seen) = self.compile()?;
        let bytes = serialize_artifact(&artifact);
        self.publish(identity, seen, &bytes);
        Ok(Output { bytes, status })
    }

    fn run(&mut self, bytes: &[u8]) -> Output {
        self.build(CachePolicy::Use, Some(compiler(bytes))).map_err(|e| e.text()).unwrap()
    }

    fn records(&mut self) -> &mut Vec<Record> {
        let bucket = self.identity(b"A").bucket();
        self.storage.entry(bucket).or_default()
    }
}

#[test]
fn seeded_hit_is_exact_bytes_and_zero_compiler_work_after_unrelated_edits() {
    let mut f = Fixture::new();
    let population = f.run(b"A");
    status(&population, "miss");
    f.write("unrelated.mag", "bad syntax @");
    f.write("mag.toml", "# unrelated formatting\n");
    let before = f.compilations;
    let hit = f.run(b"A");
    status(&hit, "hit");
    assert_eq!(hit.bytes, population.bytes);
    assert_eq!(f.compilations, before);
    let (cold, _) = f.compile().map_err(|e| e.text()).unwrap();
    assert_eq!(hit.bytes, serialize_artifact(&cold));
    assert_eq!(hit.bytes, b"[1,\"first\",{\"a\":1}]\n");
}

#[test]
fn every_observed_input_invalidates_and_source_a_b_a_survives() {
    for (path, changed) in [
        ("main.mag", "(artifact 2)"),
        ("b.mag", "(let value 2)"),
        ("note.txt", "second"),
        ("data.json", "{\"a\":2}"),
    ] {
        let mut f = Fixture::new();
        let first = f.files[&format!("{ROOT}/{path}")].clone();
        let a = f.run(b"A");
        f.write(path, changed);
        let b = f.run(b"A");
        status(&b, "miss");
        assert_ne!(a.bytes, b.bytes);
        f.write(path, &first);
        let restored = f.run(b"A");
        status(&restored, "hit");
        assert_eq!(restored.bytes, a.bytes);
        assert_eq!(f.records().len(), 2);
    }
}

#[test]
fn stable_roots_recheck_new_module_and_json_ambiguity_and_cold_precedence() {
    for (path, value) in [("extra/a.mag", "(let value 2)"), ("extra/data.json", "{}")] {
        let mut f = Fixture::new();
        f.run(b"A");
        f.write(path, value);
        let cached = f.build(CachePolicy::Use, Some(compiler(b"A"))).err().unwrap();
        let cold = f.compile().err().unwrap();
        assert_eq!(cached.text(), cold.text());
        assert!(cached.text().contains("ambiguous"));
        f.write("main.mag", "(artifact @)");
        let cached = f.build(CachePolicy::Use, Some(compiler(b"A"))).err().unwrap();
        assert!(matches!(cached, MagError::Syntax(_)));
    }
}

#[test]
fn compiler_and_complete_contexts_coexist_without_replacing_prior_records() {
    let mut f = Fixture::new();
    let a = f.run(b"stable-executable");
    status(&f.run(b"edge-executable"), "miss");
    status(&f.run(b"stable-executable"), "hit");
    f.inputs = parse_json(r#"{"unused": {"full": [1, 2]}}"#).unwrap();
    status(&f.run(b"stable-executable"), "miss");
    f.inputs = parse_json("{}").unwrap();
    assert_eq!(f.run(b"stable-executable").bytes, a.bytes);
    status(&f.run(b"stable-executable"), "hit");
    let first = f.identity(b"A");
    for field in 0..4 {
        let defaults = CompilerOptions::default();
        f.options = defaults;
        match field {
            0 => f.options.limits.evaluation_steps += 1,
            1 => f.options.limits.call_depth += 1,
            2 => f.options.limits.expression_depth += 1,
            _ => f.options.limits.memoized_calls += 1,
        }
        assert!(!f.identity(b"A").equals(&first));
        status(&f.run(b"stable-executable"), "miss");
    }
    f.options = CompilerOptions::default();
    status(&f.run(b"stable-executable"), "hit");
    f.roots.reverse();
    status(&f.run(b"stable-executable"), "miss");
    f.roots.reverse();
    status(&f.run(b"stable-executable"), "hit");
    assert!(!f.identity_for(2, compiler(b"A")).unwrap().equals(&first));
}

#[test]
fn bypass_and_unavailable_identity_never_touch_storage_or_observe() {
    let mut f = Fixture::new();
    let bypass = f.build(CachePolicy::Bypass, None).map_err(|e| e.text()).unwrap();
    status(&bypass, "bypass");
    assert!(f.storage.is_empty());
    let unavailable = f.build(CachePolicy::Use, None).map_err(|e| e.text()).unwrap();
    status(&unavailable, "unavailable");
    assert!(f.storage.is_empty());
    f.run(b"A");
    let old_artifact = f.records()[0].artifact.clone().unwrap();
    let old_sidecar = f.records()[0].sidecar.clone();
    f.write("b.mag", "(let value 5)");
    let bypass = f.build(CachePolicy::Bypass, None).map_err(|e| e.text()).unwrap();
    assert_ne!(bypass.bytes, old_artifact);
    assert_eq!(f.records()[0].sidecar, old_sidecar);
    assert_eq!(f.records().len(), 1);
}

#[test]
fn corruption_and_interrupted_records_are_silent_misses() {
    for damage in 0..11 {
        let mut f = Fixture::new();
        let expected = f.run(b"A").bytes;
        let record = f.records().last_mut().unwrap();
        match damage {
            0 => record.artifact = Some(b"broken".to_vec()),
            1 => record.sidecar = Some(b"{}".to_vec()),
            2 => record.artifact = None,
            3 => record.sidecar = None,
            4 => record.name = ".tmp-interrupted".to_owned(),
            _ => {
                let provenance = &mut record.provenance;
                match damage {
                    5 => provenance.format = "future".to_owned(),
                    6 => provenance.output = "future".to_owned(),
                    7 => provenance.observations.version = 2,
                    8 => provenance.request.inputs = parse_json(r#"{"changed":true}"#).unwrap(),
                    9 => provenance.artifact_length = 0,
                    _ => {
                        let bytes = b"[\n1]\n".to_vec();
                        provenance.artifact_length = bytes.len() as u64;
                        provenance.artifact_sha256 = destination(&bytes);
                        record.artifact = Some(bytes);
                    }
                }
                let sidecar = sidecar_of(&record.provenance);
                record.name = destination(&sidecar);
                record.sidecar = Some(sidecar);
            }
        }
        let actual = f.run(b"A");
        status(&actual, "miss");
        assert_eq!(actual.bytes, expected);
    }
}

#[test]
fn publication_failure_or_changed_consumption_does_not_change_success() {
    let mut f = Fixture::new();
    f.writable = false;
    status(&f.run(b"A"), "miss");
    f.writable = true;
    let (artifact, seen) = f.compile().map_err(|e| e.text()).unwrap();
    let bytes = serialize_artifact(&artifact);
    f.write("b.mag", "(let value 9)");
    let identity = f.identity(b"A");
    f.publish(identity, seen, &bytes);
    assert!(f.records().is_empty());
}

#[test]
fn deleted_entry_and_failures_are_recompiled_without_publishing() {
    let mut f = Fixture::new();
    f.run(b"A");
    for source in [Some("(artifact"), Some("(artifact missing)"), None] {
        match source {
            Some(source) => f.write("main.mag", source),
            None => {
                f.files.remove(&format!("{ROOT}/main.mag"));
            }
        }
        for _ in 0..2 {
            let before = f.compilations;
            let cached = f.build(CachePolicy::Use, Some(compiler(b"A"))).err().unwrap();
            assert!(f.compilations > before);
            let cold = f.compile().err().unwrap();
            assert_eq!(cached.text(), cold.text());
            assert_eq!(f.records().len(), 1);
        }
    }
}

#[test]
fn non_utf8_request_paths_bypass_without_lossy_identity() {
    let mut f = Fixture::new();
    f.write("main.mag", "(artifact 1)");
    f.roots = vec![None];
    let output = f.run(b"A");
    status(&output, "unavailable");
    assert_eq!(output.bytes, b"1\n");
    assert!(f.storage.is_empty());
}
