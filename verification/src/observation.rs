//! Evidence of what a compilation consumed, by which a stored artifact is known to be fresh.

use vstd::prelude::*;
use vstd::string::StrSliceExecFns;
use vstd::utf8::encode_utf8;

use crate::error::{MagError, SError};
use crate::identity::{sha256, sha256_hex};
use crate::resolver::{
    absolute, candidates_view, data_path, module_file, resolve_json, resolve_module,
    resolve_workspace_path, workspace_path, ResolvedModule,
};
use crate::text::{clone_names, same, same_names, strings};

verus! {

broadcast use vstd::seq_lib::group_seq_properties;

/// What a file was consumed for.
#[derive(Debug, Clone, Copy, PartialEq, Eq, Structural)]
pub enum Operation {
    Entry,
    Require,
    Read,
    ReadJson,
}

/// A request for a file: what was asked for, and the directories that it was looked for in.
#[derive(Debug)]
pub struct Query {
    pub kind: Operation,
    pub requested: String,
    pub roots: Vec<String>,
}

/// The model of a [`Query`].
#[verifier::ext_equal]
pub struct SQuery {
    pub kind: Operation,
    pub requested: Seq<char>,
    pub roots: Seq<Seq<char>>,
}

impl View for Query {
    type V = SQuery;

    open spec fn view(&self) -> SQuery {
        SQuery { kind: self.kind, requested: self.requested@, roots: strings(self.roots@) }
    }
}

/// What there is on disk that a query could mean.
#[derive(Debug)]
pub enum Located {
    /// The one root, and the directory of the path below it, with links followed.
    Path { canonical_root: String, canonical_parent: Option<String> },
    Module(Vec<ResolvedModule>),
    Data(Vec<String>),
}

/// The path that a query means, given what there is on disk.
pub open spec fn query_path(q: SQuery, found: Located) -> Option<Seq<char>> {
    match (q.kind, found) {
        (Operation::Entry, Located::Path { canonical_root, canonical_parent }) => plain_path(
            q,
            canonical_root@,
            opt_string(canonical_parent),
        ),
        (Operation::Read, Located::Path { canonical_root, canonical_parent }) => plain_path(
            q,
            canonical_root@,
            opt_string(canonical_parent),
        ),
        (Operation::Require, Located::Module(m)) => match module_file(
            q.requested,
            candidates_view(m@),
        ) {
            Ok(x) => Some(x.0),
            Err(_) => None,
        },
        (Operation::ReadJson, Located::Data(d)) => match data_path(q.requested, strings(d@)) {
            Ok(x) => Some(x),
            Err(_) => None,
        },
        _ => None,
    }
}

pub open spec fn plain_path(
    q: SQuery,
    canonical_root: Seq<char>,
    canonical_parent: Option<Seq<char>>,
) -> Option<Seq<char>> {
    if q.roots.len() == 1 {
        match workspace_path(q.roots[0], q.requested, canonical_root, canonical_parent) {
            Ok(path) => Some(path),
            Err(_) => None,
        }
    } else {
        None
    }
}

pub open spec fn opt_string(s: Option<String>) -> Option<Seq<char>> {
    match s {
        Some(s) => Some(s@),
        None => None,
    }
}

fn one_root(root: &str) -> (r: Vec<String>)
    ensures
        strings(r@) == seq![root@],
{
    let mut r: Vec<String> = Vec::new();
    r.push(root.to_owned());
    assert(strings(r@) =~= seq![root@]);
    r
}

impl Query {
    pub fn entry(root: &str, path: &str) -> (r: Query)
        ensures
            r@ == (SQuery { kind: Operation::Entry, requested: path@, roots: seq![root@] }),
    {
        Query { kind: Operation::Entry, requested: path.to_owned(), roots: one_root(root) }
    }

    pub fn read(root: &str, path: &str) -> (r: Query)
        ensures
            r@ == (SQuery { kind: Operation::Read, requested: path@, roots: seq![root@] }),
    {
        Query { kind: Operation::Read, requested: path.to_owned(), roots: one_root(root) }
    }

    pub fn module(roots: &Vec<String>, name: &str) -> (r: Query)
        ensures
            r@ == (SQuery {
                kind: Operation::Require,
                requested: name@,
                roots: strings(roots@),
            }),
    {
        Query { kind: Operation::Require, requested: name.to_owned(), roots: clone_names(roots) }
    }

    pub fn json(roots: Vec<String>, path: &str) -> (r: Query)
        ensures
            r@ == (SQuery {
                kind: Operation::ReadJson,
                requested: path@,
                roots: strings(roots@),
            }),
    {
        Query { kind: Operation::ReadJson, requested: path.to_owned(), roots }
    }

    pub fn equals(&self, other: &Query) -> (r: bool)
        ensures
            r == (self@ == other@),
    {
        let r = self.kind == other.kind && same(&self.requested, &other.requested) && same_names(
            &self.roots,
            &other.roots,
        );
        assert(r ==> self@ =~= other@);
        r
    }

    fn plain(&self, canonical_root: &str, canonical_parent: &Option<String>) -> (r: Option<String>)
        ensures
            opt_string(r) == plain_path(self@, canonical_root@, opt_string(*canonical_parent)),
    {
        assert(self@.roots.len() == self.roots@.len());
        if self.roots.len() != 1 {
            return None;
        }
        assert(self@.roots[0] == self.roots@[0]@);
        let parent = match canonical_parent {
            Some(p) => Some(p.as_str()),
            None => None,
        };
        match resolve_workspace_path(&self.roots[0], &self.requested, canonical_root, parent) {
            Ok(path) => Some(path),
            Err(_) => None,
        }
    }

    /// The path that the query means.
    pub fn resolve(&self, found: &Located) -> (r: Option<String>)
        ensures
            opt_string(r) == query_path(self@, *found),
    {
        assert(self@.roots.len() == self.roots@.len());
        match (self.kind, found) {
            (
                Operation::Entry,
                Located::Path { canonical_root, canonical_parent },
            ) => self.plain(canonical_root, canonical_parent),
            (
                Operation::Read,
                Located::Path { canonical_root, canonical_parent },
            ) => self.plain(canonical_root, canonical_parent),
            (Operation::Require, Located::Module(m)) => match resolve_module(&self.requested, m) {
                Ok(x) => Some(x.path),
                Err(_) => None,
            },
            (Operation::ReadJson, Located::Data(d)) => match resolve_json(&self.requested, d) {
                Ok(x) => Some(x),
                Err(_) => None,
            },
            _ => None,
        }
    }
}

/// One consumed file: under which spelling it was selected, which file that is, and the digest of
/// what was consumed.
#[derive(Debug)]
pub struct Observation {
    pub query: Query,
    pub selected: String,
    pub canonical: String,
    pub digest: String,
}

/// The model of an [`Observation`].
#[verifier::ext_equal]
pub struct SObservation {
    pub query: SQuery,
    pub selected: Seq<char>,
    pub canonical: Seq<char>,
    pub digest: Seq<char>,
}

impl View for Observation {
    type V = SObservation;

    open spec fn view(&self) -> SObservation {
        SObservation {
            query: self.query@,
            selected: self.selected@,
            canonical: self.canonical@,
            digest: self.digest@,
        }
    }
}

impl Observation {
    pub fn equals(&self, other: &Observation) -> (r: bool)
        ensures
            r == (self@ == other@),
    {
        self.query.equals(&other.query) && same(&self.selected, &other.selected) && same(
            &self.canonical,
            &other.canonical,
        ) && same(&self.digest, &other.digest)
    }
}

pub open spec fn records_view(items: Seq<Observation>) -> Seq<SObservation> {
    Seq::new(items.len(), |i: int| items[i]@)
}

/// What a compilation consumed. It is consistent while nothing was consumed in two versions.
#[derive(Debug)]
pub struct ObservationSet {
    pub version: u32,
    pub cwd: Option<String>,
    pub consistent: bool,
    pub records: Vec<Observation>,
}

/// The model of an [`ObservationSet`].
#[verifier::ext_equal]
pub struct SObservationSet {
    pub version: u32,
    pub cwd: Option<Seq<char>>,
    pub consistent: bool,
    pub records: Seq<SObservation>,
}

impl View for ObservationSet {
    type V = SObservationSet;

    open spec fn view(&self) -> SObservationSet {
        SObservationSet {
            version: self.version,
            cwd: opt_string(self.cwd),
            consistent: self.consistent,
            records: records_view(self.records@),
        }
    }
}

/// The record of a query, from `i` on.
pub open spec fn record_at(records: Seq<SObservation>, q: SQuery, i: nat) -> Option<SObservation>
    decreases records.len() - i,
{
    if i >= records.len() {
        None
    } else if records[i as int].query == q {
        Some(records[i as int])
    } else {
        record_at(records, q, i + 1)
    }
}

/// Whether the same file was consumed with other contents.
pub open spec fn contradicted(records: Seq<SObservation>, r: SObservation) -> bool {
    exists|i: int|
        0 <= i < records.len() && (#[trigger] records[i]).canonical == r.canonical
            && records[i].digest != r.digest
}

impl SObservationSet {
    /// The set once one more file was consumed.
    #[verifier::opaque]
    pub open spec fn recorded(self, r: SObservation) -> SObservationSet {
        match record_at(self.records, r.query, 0) {
            Some(previous) => SObservationSet {
                consistent: self.consistent && previous == r,
                ..self
            },
            None => SObservationSet {
                consistent: self.consistent && !contradicted(self.records, r),
                records: self.records.push(r),
                ..self
            },
        }
    }
}

/// What became of looking for a file again.
#[derive(Debug)]
pub struct Evidence {
    pub selected: Option<String>,
    pub canonical: String,
    pub bytes: Option<Vec<u8>>,
}

/// The model of [`Evidence`].
#[verifier::ext_equal]
pub struct SEvidence {
    pub selected: Option<Seq<char>>,
    pub canonical: Seq<char>,
    pub bytes: Option<Seq<u8>>,
}

impl View for Evidence {
    type V = SEvidence;

    open spec fn view(&self) -> SEvidence {
        SEvidence {
            selected: opt_string(self.selected),
            canonical: self.canonical@,
            bytes: match self.bytes {
                Some(b) => Some(b@),
                None => None,
            },
        }
    }
}

pub open spec fn evidence_view(items: Seq<Evidence>) -> Seq<SEvidence> {
    Seq::new(items.len(), |i: int| items[i]@)
}

/// Whether a file is still what was consumed.
pub open spec fn confirmed(r: SObservation, e: SEvidence) -> bool {
    &&& e.selected == Some(r.selected)
    &&& e.canonical == r.canonical
    &&& match e.bytes {
        Some(b) => sha256_hex(b) == r.digest,
        None => false,
    }
}

pub open spec fn some_relative(records: Seq<SObservation>) -> bool {
    exists|i: int, j: int|
        0 <= i < records.len() && 0 <= j < records[i].query.roots.len() && !absolute(
            #[trigger] records[i].query.roots[j],
        )
}

pub open spec fn entry_count(records: Seq<SObservation>, n: nat) -> nat
    decreases n,
{
    if n == 0 {
        0
    } else {
        entry_count(records, (n - 1) as nat) + if records[n - 1].query.kind == Operation::Entry {
            1nat
        } else {
            0nat
        }
    }
}

pub open spec fn all_confirmed(records: Seq<SObservation>, evidence: Seq<SEvidence>) -> bool {
    evidence.len() == records.len() && forall|i: int|
        0 <= i < records.len() ==> confirmed(#[trigger] records[i], evidence[i])
}

/// Whether what was consumed is still what there is: nothing was consumed in two versions, there
/// is exactly one entry, relative paths mean what they meant, and each file is what it was.
#[verifier::opaque]
pub open spec fn still_fresh(
    set: SObservationSet,
    cwd: Option<Seq<char>>,
    evidence: Seq<SEvidence>,
) -> bool {
    &&& set.version == 1
    &&& set.consistent
    &&& set.records.len() > 0
    &&& some_relative(set.records) ==> set.cwd is Some && cwd == set.cwd
    &&& entry_count(set.records, set.records.len()) == 1
    &&& all_confirmed(set.records, evidence)
}

fn find_record(records: &Vec<Observation>, q: &Query) -> (r: Option<usize>)
    ensures
        match r {
            Some(i) => i < records@.len() && record_at(records_view(records@), q@, 0) == Some(
                records@[i as int]@,
            ),
            None => record_at(records_view(records@), q@, 0) is None,
        },
{
    let ghost all = records_view(records@);
    let mut i: usize = 0;
    while i < records.len()
        invariant
            i <= records.len(),
            all == records_view(records@),
            record_at(all, q@, 0) == record_at(all, q@, i as nat),
        decreases records.len() - i,
    {
        assert(all[i as int] == records@[i as int]@);
        if records[i].query.equals(q) {
            return Some(i);
        }
        i = i + 1;
    }
    None
}

fn is_contradicted(records: &Vec<Observation>, r: &Observation) -> (b: bool)
    ensures
        b == contradicted(records_view(records@), r@),
{
    let ghost all = records_view(records@);
    let mut i: usize = 0;
    while i < records.len()
        invariant
            i <= records.len(),
            all == records_view(records@),
            forall|j: int|
                0 <= j < i ==> !((#[trigger] all[j]).canonical == r@.canonical && all[j].digest
                    != r@.digest),
        decreases records.len() - i,
    {
        assert(all[i as int] == records@[i as int]@);
        if same(&records[i].canonical, &r.canonical) && !same(&records[i].digest, &r.digest) {
            return true;
        }
        i = i + 1;
    }
    false
}

fn is_relative(path: &str) -> (r: bool)
    ensures
        r == !absolute(path@),
{
    !(path.unicode_len() > 0 && path.get_char(0) == '/')
}

fn has_relative(records: &Vec<Observation>) -> (r: bool)
    ensures
        r == some_relative(records_view(records@)),
{
    let ghost all = records_view(records@);
    let mut i: usize = 0;
    while i < records.len()
        invariant
            i <= records.len(),
            all == records_view(records@),
            forall|k: int, j: int|
                0 <= k < i && 0 <= j < all[k].query.roots.len() ==> absolute(
                    #[trigger] all[k].query.roots[j],
                ),
        decreases records.len() - i,
    {
        assert(all[i as int] == records@[i as int]@);
        let mut j: usize = 0;
        while j < records[i].query.roots.len()
            invariant
                i < records.len(),
                all == records_view(records@),
                all[i as int] == records@[i as int]@,
                j <= records@[i as int].query.roots@.len(),
                forall|m: int|
                    0 <= m < j ==> absolute(#[trigger] all[i as int].query.roots[m]),
            decreases records@[i as int].query.roots@.len() - j,
        {
            assert(all[i as int].query.roots[j as int] == records@[i as int].query.roots@[j as int]@);
            if is_relative(&records[i].query.roots[j]) {
                return true;
            }
            j = j + 1;
        }
        i = i + 1;
    }
    false
}

fn count_entries(records: &Vec<Observation>) -> (r: usize)
    ensures
        r == entry_count(records_view(records@), records@.len()),
{
    let ghost all = records_view(records@);
    let mut n: usize = 0;
    let mut i: usize = 0;
    while i < records.len()
        invariant
            i <= records.len(),
            n <= i,
            all == records_view(records@),
            n == entry_count(all, i as nat),
        decreases records.len() - i,
    {
        assert(all[i as int] == records@[i as int]@);
        if records[i].query.kind == Operation::Entry {
            n = n + 1;
        }
        i = i + 1;
    }
    n
}

fn confirms(r: &Observation, e: &Evidence) -> (b: bool)
    ensures
        b == confirmed(r@, e@),
{
    match &e.selected {
        Some(s) => {
            if !same(s, &r.selected) {
                return false;
            }
        },
        None => {
            return false;
        },
    }
    if !same(&e.canonical, &r.canonical) {
        return false;
    }
    match &e.bytes {
        Some(b) => same(&sha256(b), &r.digest),
        None => false,
    }
}

impl ObservationSet {
    /// The set of a compilation that has consumed nothing yet.
    pub fn new(cwd: Option<String>) -> (r: ObservationSet)
        ensures
            r@ == (SObservationSet {
                version: 1,
                cwd: opt_string(cwd),
                consistent: true,
                records: Seq::empty(),
            }),
    {
        let r = ObservationSet { version: 1, cwd, consistent: true, records: Vec::new() };
        assert(r@.records =~= Seq::empty());
        r
    }

    /// Takes down that a text was consumed.
    pub fn record(&mut self, query: Query, path: &str, canonical: &str, source: &str)
        ensures
            final(self)@ == old(self)@.recorded(
                SObservation {
                    query: query@,
                    selected: path@,
                    canonical: canonical@,
                    digest: sha256_hex(encode_utf8(source@)),
                },
            ),
    {
        proof {
            reveal(SObservationSet::recorded);
        }
        let ghost before = self@;
        let r = Observation {
            query,
            selected: path.to_owned(),
            canonical: canonical.to_owned(),
            digest: sha256(&source.as_bytes_vec()),
        };
        match find_record(&self.records, &r.query) {
            Some(i) => {
                if !self.records[i].equals(&r) {
                    self.consistent = false;
                }
                assert(self@ =~= before.recorded(r@));
            },
            None => {
                if is_contradicted(&self.records, &r) {
                    self.consistent = false;
                }
                self.records.push(r);
                assert(self@.records =~= before.records.push(r@));
                assert(self@ =~= before.recorded(r@));
            },
        }
    }

    /// Whether what was consumed is still what there is. This is evidence of freshness, no
    /// isolation from changes.
    pub fn validate(&self, cwd: Option<&str>, evidence: &Vec<Evidence>) -> (r: bool)
        ensures
            r == still_fresh(
                self@,
                match cwd {
                    Some(c) => Some(c@),
                    None => None,
                },
                evidence_view(evidence@),
            ),
    {
        proof {
            reveal(still_fresh);
        }
        let ghost all = self@.records;
        let ghost seen = evidence_view(evidence@);
        if self.version != 1 || !self.consistent || self.records.len() == 0 {
            return false;
        }
        if has_relative(&self.records) {
            match (&self.cwd, cwd) {
                (Some(a), Some(b)) => {
                    if !same(a, b) {
                        return false;
                    }
                },
                _ => {
                    return false;
                },
            }
        }
        if count_entries(&self.records) != 1 {
            return false;
        }
        if evidence.len() != self.records.len() {
            return false;
        }
        let mut i: usize = 0;
        while i < self.records.len()
            invariant
                i <= self.records.len(),
                all == records_view(self.records@),
                self@.records == all,
                seen == evidence_view(evidence@),
                evidence@.len() == self.records@.len(),
                forall|j: int| 0 <= j < i ==> confirmed(#[trigger] all[j], seen[j]),
            decreases self.records.len() - i,
        {
            assert(all[i as int] == self.records@[i as int]@);
            assert(seen[i as int] == evidence@[i as int]@);
            if !confirms(&self.records[i], &evidence[i]) {
                proof {
                    reveal(still_fresh);
                }
                return false;
            }
            i = i + 1;
        }
        true
    }
}

/// What was consumed in two versions is fresh for no evidence, and nothing that is consumed later
/// changes that.
pub proof fn contradiction_is_final(
    set: SObservationSet,
    r: SObservation,
    cwd: Option<Seq<char>>,
    evidence: Seq<SEvidence>,
)
    requires
        !set.consistent,
    ensures
        !set.recorded(r).consistent,
        !still_fresh(set, cwd, evidence),
{
    reveal(SObservationSet::recorded);
    reveal(still_fresh);
}

/// Consuming something else for the same query, or another version of the same file, makes a set
/// inconsistent.
pub proof fn contradictory_consumption_is_not_publishable(
    set: SObservationSet,
    previous: SObservation,
    r: SObservation,
)
    requires
        record_at(set.records, r.query, 0) == Some(previous) && previous != r || (record_at(
            set.records,
            r.query,
            0,
        ) is None && contradicted(set.records, r)),
    ensures
        !set.recorded(r).consistent,
{
    reveal(SObservationSet::recorded);
}

/// Consuming the same again changes nothing.
pub proof fn repeated_consumption_changes_nothing(set: SObservationSet, r: SObservation)
    requires
        record_at(set.records, r.query, 0) == Some(r),
    ensures
        set.recorded(r) == set,
{
    reveal(SObservationSet::recorded);
}

} // verus!
