//! Stored artifacts of projects: what they are known by, and when one may be used again. Only
//! artifacts of compilations that succeeded are stored.

use vstd::prelude::*;
use vstd::string::StrSliceExecFns;
use vstd::utf8::{encode_utf8, valid_utf8};

use crate::identity::{digest_shape, hex_digit, sha256, sha256_hex};
use crate::json::{
    documents_equal_themselves, equal_json, json_equal, jsons_view, numeric, Json, SJson,
};
use crate::limits::CompilerLimits;
use crate::observation::{ObservationSet, SObservationSet};
use crate::resolver::absolute;
use crate::text::{
    cat2, cat3, clone_names, decimal, order_names, ordered, same, same_names, show_u64, strings,
};
use crate::wire::{is_json_text, json_bytes, json_syntax, json_text, render, render_bytes, wired};

verus! {

broadcast use vstd::seq_lib::group_seq_properties;

#[derive(Debug, Clone, Copy, PartialEq, Eq, Structural)]
pub enum CachePolicy {
    Use,
    Bypass,
}

/// What a compiler is known by: the digest of its executable. Path, version and time of change
/// are no identities.
#[derive(Debug)]
pub struct CompilerBuildId(pub String);

impl CompilerBuildId {
    pub fn from_executable_bytes(bytes: &Vec<u8>) -> (r: CompilerBuildId)
        ensures
            r.0@ == sha256_hex(bytes@),
    {
        CompilerBuildId(sha256(bytes))
    }
}

#[derive(Debug, Clone, Copy, PartialEq, Eq, Structural)]
pub enum CacheStatus {
    Hit,
    Miss,
    Bypass,
    Unavailable,
}

#[derive(Debug, Clone, Copy, PartialEq, Eq, Structural)]
pub struct CacheProfile {
    pub status: CacheStatus,
    pub lookup_duration_ns: u64,
    pub publication_duration_ns: u64,
}

#[derive(Debug)]
pub struct BuildOutput {
    pub bytes: Vec<u8>,
    pub cache: CacheProfile,
}

/// All that an artifact depends on, besides what its compilation consumed.
#[derive(Debug)]
pub struct Identity {
    pub schema: String,
    pub compiler: CompilerBuildId,
    pub output: String,
    pub root: String,
    pub entry: String,
    pub roots: Vec<String>,
    pub inputs: Json,
    pub config_version: u32,
    pub limits: CompilerLimits,
}

/// The model of an [`Identity`].
#[verifier::ext_equal]
pub struct SIdentity {
    pub schema: Seq<char>,
    pub compiler: Seq<char>,
    pub output: Seq<char>,
    pub root: Seq<char>,
    pub entry: Seq<char>,
    pub roots: Seq<Seq<char>>,
    pub inputs: SJson,
    pub config_version: u32,
    pub limits: CompilerLimits,
}

impl View for Identity {
    type V = SIdentity;

    open spec fn view(&self) -> SIdentity {
        SIdentity {
            schema: self.schema@,
            compiler: self.compiler.0@,
            output: self.output@,
            root: self.root@,
            entry: self.entry@,
            roots: strings(self.roots@),
            inputs: self.inputs@,
            config_version: self.config_version,
            limits: self.limits,
        }
    }
}

pub open spec fn cache_format() -> Seq<char> {
    "mag-project-cache-v1"@
}

pub open spec fn output_format() -> Seq<char> {
    "mag-json-line-v1"@
}

pub open spec fn path_texts(items: Seq<Option<String>>) -> Seq<Option<Seq<char>>> {
    Seq::new(
        items.len(),
        |i: int|
            match items[i] {
                Some(s) => Some(s@),
                None => None,
            },
    )
}

/// Whether paths are text and start at the root.
pub open spec fn all_absolute(paths: Seq<Option<Seq<char>>>) -> bool {
    forall|i: int|
        0 <= i < paths.len() ==> (#[trigger] paths[i]) is Some && absolute(paths[i]->Some_0)
}

pub open spec fn known_texts(paths: Seq<Option<Seq<char>>>) -> Seq<Seq<char>> {
    Seq::new(paths.len(), |i: int| paths[i]->Some_0)
}

/// What an artifact is known by. There is nothing to know it by where a path is relative, or is no
/// text.
pub open spec fn identified(
    root: Option<Seq<char>>,
    entry: Seq<char>,
    roots: Seq<Option<Seq<char>>>,
    inputs: SJson,
    config_version: u32,
    limits: CompilerLimits,
    compiler: Seq<char>,
) -> Option<SIdentity> {
    match root {
        Some(r) => if absolute(r) && all_absolute(roots) {
            Some(
                SIdentity {
                    schema: cache_format(),
                    compiler,
                    output: output_format(),
                    root: r,
                    entry,
                    roots: known_texts(roots),
                    inputs,
                    config_version,
                    limits,
                },
            )
        } else {
            None
        },
        None => None,
    }
}

fn starts_at_root(path: &str) -> (r: bool)
    ensures
        r == absolute(path@),
{
    path.unicode_len() > 0 && path.get_char(0) == '/'
}

fn absolute_texts(paths: &Vec<Option<String>>) -> (r: Option<Vec<String>>)
    ensures
        match r {
            Some(t) => all_absolute(path_texts(paths@)) && strings(t@) == known_texts(
                path_texts(paths@),
            ),
            None => !all_absolute(path_texts(paths@)),
        },
{
    let ghost all = path_texts(paths@);
    let mut r: Vec<String> = Vec::new();
    let mut i: usize = 0;
    while i < paths.len()
        invariant
            i <= paths.len(),
            all == path_texts(paths@),
            r.len() == i,
            forall|j: int|
                0 <= j < i ==> (#[trigger] all[j]) == Some(r@[j]@) && absolute(r@[j]@),
        decreases paths.len() - i,
    {
        let ghost so_far = r@;
        match &paths[i] {
            Some(p) => {
                assert(all[i as int] == Some(p@));
                if !starts_at_root(p) {
                    return None;
                }
                let text = p.clone();
                r.push(text);
                assert forall|j: int| 0 <= j < i + 1 implies (#[trigger] all[j]) == Some(r@[j]@)
                    && absolute(r@[j]@) by {
                    if j < i {
                        assert(r@[j] == so_far[j]);
                        assert(all[j] == Some(so_far[j]@));
                        assert(absolute(so_far[j]@));
                    } else {
                        assert(r@[j] == text);
                        assert(text@ == p@);
                        assert(absolute(p@));
                        assert(all[j] == Some(p@));
                    }
                }
            },
            None => {
                assert(all[i as int] is None);
                return None;
            },
        }
        i = i + 1;
    }
    assert(strings(r@) =~= known_texts(all)) by {
        assert forall|j: int| 0 <= j < r@.len() implies strings(r@)[j] == known_texts(all)[j] by {
            assert(all[j] == Some(r@[j]@));
        }
    }
    Some(r)
}

/// The text of a string in a document.
pub open spec fn string_text(s: Seq<char>) -> Seq<char> {
    json_text(wired(SJson::Str(s)))
}

pub open spec fn string_list(items: Seq<Seq<char>>) -> SJson {
    SJson::Array(Seq::new(items.len(), |i: int| SJson::Str(items[i])))
}

/// The compact document of an identity, with its members in a fixed order.
#[verifier::opaque]
pub open spec fn identity_text(i: SIdentity) -> Seq<char> {
    "{\"schema\":"@ + string_text(i.schema) + ",\"compiler\":"@ + string_text(i.compiler)
        + ",\"output\":"@ + string_text(i.output) + ",\"root\":"@ + string_text(i.root)
        + ",\"entry\":"@ + string_text(i.entry) + ",\"roots\":"@ + json_text(
        wired(string_list(i.roots)),
    ) + ",\"inputs\":"@ + json_text(wired(i.inputs)) + ",\"config_version\":"@ + decimal(
        i.config_version as nat,
    ) + ",\"evaluation_steps\":"@ + decimal(i.limits.evaluation_steps as nat)
        + ",\"call_depth\":"@ + decimal(i.limits.call_depth as nat) + ",\"expression_depth\":"@
        + decimal(i.limits.expression_depth as nat) + ",\"memoized_calls\":"@ + decimal(
        i.limits.memoized_calls as nat,
    ) + "}"@
}

fn show_string(s: &str) -> (r: String)
    ensures
        r@ == string_text(s@),
{
    let j = Json::Str(s.to_owned());
    assert(j@ == SJson::Str(s@));
    render(&j)
}

fn show_strings(items: &Vec<String>) -> (r: String)
    ensures
        r@ == json_text(wired(string_list(strings(items@)))),
{
    let ghost all = strings(items@);
    let mut out: Vec<Json> = Vec::new();
    let mut i: usize = 0;
    while i < items.len()
        invariant
            i <= items.len(),
            all == strings(items@),
            out.len() == i,
            forall|j: int| 0 <= j < i ==> (#[trigger] out@[j])@ == SJson::Str(all[j]),
        decreases items.len() - i,
    {
        out.push(Json::Str(items[i].clone()));
        i = i + 1;
    }
    let j = Json::Array(out);
    assert(j@ == SJson::Array(jsons_view(out@)));
    assert(jsons_view(out@) =~= Seq::new(all.len(), |i: int| SJson::Str(all[i])));
    render(&j)
}

impl Identity {
    pub fn new(
        root: Option<&str>,
        entry: &str,
        roots: &Vec<Option<String>>,
        inputs: &Json,
        config_version: u32,
        limits: CompilerLimits,
        compiler: CompilerBuildId,
    ) -> (r: Option<Identity>)
        ensures
            match r {
                Some(i) => identified(
                    crate::diagnostics::opt_str(root),
                    entry@,
                    path_texts(roots@),
                    inputs@,
                    config_version,
                    limits,
                    compiler.0@,
                ) == Some(i@),
                None => identified(
                    crate::diagnostics::opt_str(root),
                    entry@,
                    path_texts(roots@),
                    inputs@,
                    config_version,
                    limits,
                    compiler.0@,
                ) is None,
            },
    {
        let root = match root {
            Some(r) => r,
            None => {
                return None;
            },
        };
        if !starts_at_root(root) {
            return None;
        }
        match absolute_texts(roots) {
            None => None,
            Some(known) => Some(
                Identity {
                    schema: "mag-project-cache-v1".to_owned(),
                    compiler,
                    output: "mag-json-line-v1".to_owned(),
                    root: root.to_owned(),
                    entry: entry.to_owned(),
                    roots: known,
                    inputs: inputs.clone(),
                    config_version,
                    limits,
                },
            ),
        }
    }

    fn text(&self) -> (r: String)
        ensures
            r@ == identity_text(self@),
    {
        proof {
            reveal(identity_text);
        }
        let mut out = cat2("{\"schema\":", &show_string(&self.schema));
        out.append(",\"compiler\":");
        out.append(&show_string(&self.compiler.0));
        out.append(",\"output\":");
        out.append(&show_string(&self.output));
        out.append(",\"root\":");
        out.append(&show_string(&self.root));
        out.append(",\"entry\":");
        out.append(&show_string(&self.entry));
        out.append(",\"roots\":");
        out.append(&show_strings(&self.roots));
        out.append(",\"inputs\":");
        out.append(&render(&self.inputs));
        out.append(",\"config_version\":");
        out.append(&show_u64(self.config_version as u64));
        out.append(",\"evaluation_steps\":");
        out.append(&show_u64(self.limits.evaluation_steps));
        out.append(",\"call_depth\":");
        out.append(&show_u64(self.limits.call_depth as u64));
        out.append(",\"expression_depth\":");
        out.append(&show_u64(self.limits.expression_depth as u64));
        out.append(",\"memoized_calls\":");
        out.append(&show_u64(self.limits.memoized_calls as u64));
        out.append("}");
        out
    }

    /// The directories, one in the other, that hold the artifacts known by this identity.
    pub fn bucket(&self) -> (r: Vec<String>)
        ensures
            strings(r@) == seq![
                "v1"@,
                self@.compiler,
                sha256_hex(encode_utf8(identity_text(self@))),
            ],
    {
        let mut r: Vec<String> = Vec::new();
        let text = self.text();
        r.push("v1".to_owned());
        r.push(self.compiler.0.clone());
        r.push(sha256(&text.as_str().as_bytes_vec()));
        assert(strings(r@) =~= seq![
            "v1"@,
            self@.compiler,
            sha256_hex(encode_utf8(identity_text(self@))),
        ]);
        r
    }

    pub fn equals(&self, other: &Identity) -> (r: bool)
        ensures
            r == same_identity(self@, other@),
    {
        same(&self.schema, &other.schema) && same(&self.compiler.0, &other.compiler.0) && same(
            &self.output,
            &other.output,
        ) && same(&self.root, &other.root) && same(&self.entry, &other.entry) && same_names(
            &self.roots,
            &other.roots,
        ) && equal_json(&self.inputs, &other.inputs) && self.config_version
            == other.config_version && self.limits == other.limits
    }
}

/// Whether two identities say the same; documents in whatever order their members stand.
pub open spec fn same_identity(a: SIdentity, b: SIdentity) -> bool {
    &&& a.schema == b.schema
    &&& a.compiler == b.compiler
    &&& a.output == b.output
    &&& a.root == b.root
    &&& a.entry == b.entry
    &&& a.roots == b.roots
    &&& json_equal(a.inputs, b.inputs)
    &&& a.config_version == b.config_version
    &&& a.limits == b.limits
}

/// What is stored beside an artifact.
#[derive(Debug)]
pub struct Provenance {
    pub format: String,
    pub request: Identity,
    pub output: String,
    pub observations: ObservationSet,
    pub artifact_length: u64,
    pub artifact_sha256: String,
}

/// The model of a [`Provenance`].
#[verifier::ext_equal]
pub struct SProvenance {
    pub format: Seq<char>,
    pub request: SIdentity,
    pub output: Seq<char>,
    pub observations: SObservationSet,
    pub artifact_length: u64,
    pub artifact_sha256: Seq<char>,
}

impl View for Provenance {
    type V = SProvenance;

    open spec fn view(&self) -> SProvenance {
        SProvenance {
            format: self.format@,
            request: self.request@,
            output: self.output@,
            observations: self.observations@,
            artifact_length: self.artifact_length,
            artifact_sha256: self.artifact_sha256@,
        }
    }
}

/// What is stored beside the artifact of a compilation.
pub open spec fn provenance_of(
    request: SIdentity,
    observations: SObservationSet,
    bytes: Seq<u8>,
) -> SProvenance {
    SProvenance {
        format: cache_format(),
        request,
        output: output_format(),
        observations,
        artifact_length: bytes.len() as u64,
        artifact_sha256: sha256_hex(bytes),
    }
}

pub fn make_provenance(request: Identity, observations: ObservationSet, bytes: &Vec<u8>) -> (r:
    Provenance)
    ensures
        r@ == provenance_of(request@, observations@, bytes@),
{
    Provenance {
        format: "mag-project-cache-v1".to_owned(),
        request,
        output: "mag-json-line-v1".to_owned(),
        observations,
        artifact_length: bytes.len() as u64,
        artifact_sha256: sha256(bytes),
    }
}

/// The bytes of an artifact: its compact document and a line feed.
pub open spec fn artifact_line(j: SJson) -> Seq<u8> {
    json_bytes(wired(j)).push(10u8)
}

/// Whether bytes are one line: a line feed at their end and none before.
pub open spec fn one_line(bytes: Seq<u8>) -> bool {
    &&& bytes.len() > 0
    &&& bytes[bytes.len() - 1] == 10
    &&& forall|i: int| 0 <= i < bytes.len() - 1 ==> #[trigger] bytes[i] != 10
}

pub fn serialize_artifact(artifact: &Json) -> (r: Vec<u8>)
    ensures
        r@ == artifact_line(artifact@),
        one_line(r@),
        document_bytes(r@),
{
    let mut bytes = render_bytes(artifact);
    let ghost before = bytes@;
    bytes.push(10u8);
    assert(bytes@ =~= before.push(10u8));
    proof {
        let s = choose|s: Seq<char>|
            encode_utf8(s) == before && #[trigger] json_syntax(s) && json_syntax(s.push('\n'));
        line_feed_is_one_byte(s);
    }
    assert forall|i: int| 0 <= i < bytes@.len() - 1 implies #[trigger] bytes@[i] != 10 by {
        assert(bytes@[i] == before[i]);
    }
    bytes
}

/// What the cache did for a build that it did not answer.
pub open spec fn miss_status(policy: CachePolicy, known: bool) -> CacheStatus {
    if policy == CachePolicy::Bypass {
        CacheStatus::Bypass
    } else if known {
        CacheStatus::Miss
    } else {
        CacheStatus::Unavailable
    }
}

pub fn cold_status(policy: CachePolicy, known: bool) -> (r: CacheStatus)
    ensures
        r == miss_status(policy, known),
{
    if policy == CachePolicy::Bypass {
        CacheStatus::Bypass
    } else if known {
        CacheStatus::Miss
    } else {
        CacheStatus::Unavailable
    }
}

/// Whether a name is that of a stored record.
pub fn record_name(name: &str) -> (r: bool)
    ensures
        r == digest_shape(name@),
{
    let n: usize = name.unicode_len();
    if n != 64 {
        return false;
    }
    let mut i: usize = 0;
    while i < n
        invariant
            i <= n,
            n == name@.len(),
            n == 64,
            forall|j: int| 0 <= j < i ==> hex_digit(#[trigger] name@[j]),
        decreases n - i,
    {
        let c = name.get_char(i);
        if !(('0' <= c && c <= '9') || ('a' <= c && c <= 'f')) {
            return false;
        }
        i = i + 1;
    }
    true
}

pub open spec fn record_names(names: Seq<Seq<char>>) -> Seq<Seq<char>>
    decreases names.len(),
{
    if names.len() == 0 {
        Seq::empty()
    } else {
        let rest = record_names(names.drop_last());
        if digest_shape(names.last()) {
            rest.push(names.last())
        } else {
            rest
        }
    }
}

/// The records of a bucket in the order in which they are tried.
pub fn record_order(names: &Vec<String>) -> (r: Vec<String>)
    ensures
        strings(r@) == ordered(record_names(strings(names@)).to_set()),
{
    let ghost all = strings(names@);
    let mut kept: Vec<String> = Vec::new();
    let mut i: usize = 0;
    proof {
        assert(all.take(0) =~= Seq::empty());
        assert(strings(kept@) =~= Seq::empty());
    }
    while i < names.len()
        invariant
            i <= names.len(),
            all == strings(names@),
            strings(kept@) == record_names(all.take(i as int)),
        decreases names.len() - i,
    {
        let ghost so_far = strings(kept@);
        proof {
            assert(all.take(i + 1).drop_last() =~= all.take(i as int));
            assert(all.take(i + 1).last() == names@[i as int]@);
        }
        if record_name(&names[i]) {
            let name = names[i].clone();
            kept.push(name);
            assert(strings(kept@) =~= so_far.push(name@));
        }
        i = i + 1;
    }
    assert(all.take(names.len() as int) =~= all);
    order_names(&kept)
}

/// `std::str::from_utf8`: the text that bytes encode, or nothing where they are no text.
#[verifier::external_body]
fn utf8_text(bytes: &Vec<u8>) -> (r: Option<String>)
    ensures
        match r {
            Some(s) => encode_utf8(s@) == bytes@,
            None => !valid_utf8(bytes@),
        },
{
    match std::str::from_utf8(bytes) {
        Ok(s) => Some(s.to_owned()),
        Err(_) => None,
    }
}

/// A line feed behind a text is a byte behind its encoding.
proof fn line_feed_is_one_byte(s: Seq<char>)
    ensures
        encode_utf8(s.push('\n')) == encode_utf8(s).push(10u8),
    decreases s.len(),
{
    if s.len() == 0 {
        assert(s.push('\n') =~= seq!['\n']);
        vstd::utf8::is_ascii_chars_encode_utf8(seq!['\n']);
        assert(encode_utf8(seq!['\n']) =~= encode_utf8(s).push(10u8));
    } else {
        assert(s.push('\n').drop_first() =~= s.drop_first().push('\n'));
        line_feed_is_one_byte(s.drop_first());
        assert(encode_utf8(s.push('\n')) =~= encode_utf8(s).push(10u8));
    }
}

/// Whether bytes encode a text that is a document.
pub open spec fn document_bytes(bytes: Seq<u8>) -> bool {
    exists|s: Seq<char>| encode_utf8(s) == bytes && #[trigger] json_syntax(s)
}

fn is_document(bytes: &Vec<u8>) -> (r: bool)
    ensures
        r == document_bytes(bytes@),
{
    match utf8_text(bytes) {
        None => {
            assert forall|s: Seq<char>| encode_utf8(s) == bytes@ implies false by {
                vstd::utf8::encode_utf8_valid_utf8(s);
            }
            false
        },
        Some(text) => {
            let r = is_json_text(&text);
            proof {
                if document_bytes(bytes@) {
                    let s = choose|s: Seq<char>|
                        encode_utf8(s) == bytes@ && #[trigger] json_syntax(s);
                    vstd::utf8::encode_utf8_decode_utf8(s);
                    vstd::utf8::encode_utf8_decode_utf8(text@);
                    assert(s == text@);
                }
            }
            r
        },
    }
}

fn is_one_line(bytes: &Vec<u8>) -> (r: bool)
    ensures
        r == one_line(bytes@),
{
    if bytes.len() == 0 || bytes[bytes.len() - 1] != 10 {
        return false;
    }
    let mut i: usize = 0;
    while i < bytes.len() - 1
        invariant
            i <= bytes@.len() - 1,
            bytes@.len() > 0,
            forall|j: int| 0 <= j < i ==> #[trigger] bytes@[j] != 10,
        decreases bytes@.len() - i,
    {
        if bytes[i] == 10 {
            return false;
        }
        i = i + 1;
    }
    true
}

/// Whether a stored record answers a request: its name is the digest of what is stored beside the
/// artifact, that is about this request, the artifact is whole, and what the compilation consumed
/// is still what there is.
#[verifier::opaque]
pub open spec fn answers(
    name: Seq<char>,
    sidecar: Seq<u8>,
    p: SProvenance,
    request: SIdentity,
    artifact: Seq<u8>,
    fresh: bool,
) -> bool {
    &&& name == sha256_hex(sidecar)
    &&& p.format == cache_format()
    &&& p.output == output_format()
    &&& same_identity(p.request, request)
    &&& artifact.len() as u64 == p.artifact_length
    &&& sha256_hex(artifact) == p.artifact_sha256
    &&& one_line(artifact)
    &&& document_bytes(artifact)
    &&& fresh
}

pub fn load_record(
    name: &str,
    sidecar: &Vec<u8>,
    provenance: &Provenance,
    request: &Identity,
    artifact: &Vec<u8>,
    fresh: bool,
) -> (r: bool)
    ensures
        r == answers(name@, sidecar@, provenance@, request@, artifact@, fresh),
{
    proof {
        reveal(answers);
    }
    same(name, &sha256(sidecar)) && same(&provenance.format, "mag-project-cache-v1") && same(
        &provenance.output,
        "mag-json-line-v1",
    ) && provenance.request.equals(request) && artifact.len() as u64 == provenance.artifact_length
        && same(&sha256(artifact), &provenance.artifact_sha256) && is_one_line(artifact)
        && is_document(artifact) && fresh
}

/// The name under which a record is stored.
pub fn destination(sidecar: &Vec<u8>) -> (r: String)
    ensures
        r@ == sha256_hex(sidecar@),
        digest_shape(r@),
{
    sha256(sidecar)
}

/// What was stored for a request answers the same request while what was consumed is fresh, and
/// does not once it is not.
pub proof fn stored_artifact_answers_its_request(
    request: SIdentity,
    observations: SObservationSet,
    artifact: Seq<u8>,
    sidecar: Seq<u8>,
    fresh: bool,
)
    requires
        numeric(request.inputs),
        one_line(artifact),
        document_bytes(artifact),
    ensures
        answers(
            sha256_hex(sidecar),
            sidecar,
            provenance_of(request, observations, artifact),
            request,
            artifact,
            fresh,
        ) == fresh,
{
    reveal(answers);
    documents_equal_themselves(request.inputs);
}

/// Requests that differ in a limit, in the order of their roots, in the compiler or in the version
/// of the manifest do not answer each other.
pub proof fn other_contexts_do_not_answer(
    name: Seq<char>,
    sidecar: Seq<u8>,
    p: SProvenance,
    request: SIdentity,
    artifact: Seq<u8>,
    fresh: bool,
)
    requires
        p.request.limits != request.limits || p.request.roots != request.roots
            || p.request.compiler != request.compiler || p.request.config_version
            != request.config_version || p.request.entry != request.entry || p.request.root
            != request.root,
    ensures
        !answers(name, sidecar, p, request, artifact, fresh),
{
    reveal(answers);
}

} // verus!
