//! The accounting of compilations.

use vstd::prelude::*;

use crate::codec::json_result;
use crate::error::{MagError, SError};
use crate::json::{Json, SJson};
use crate::limits::{limits_of, CompilerLimits, CompilerOptions};
use crate::lisp::{compile_source, written_module};
use crate::program::{compile_cold, compiled_cold, make_program, programmed, Library, SLibrary};
use crate::reader::read_source;

verus! {

/// The artifact of a source: the source is read, what it stands for is parted into a program, and
/// the program is compiled from nothing.
pub open spec fn compiled_source(
    lib: SLibrary,
    source: Seq<char>,
    inputs: SJson,
    limits: CompilerLimits,
) -> Result<SJson, SError> {
    match read_source(source) {
        Err(e) => Err(e),
        Ok(expressions) => compiled_cold(
            lib,
            programmed(written_module(expressions)),
            inputs,
            limits,
        ).1,
    }
}

fn compile_text(lib: &Library, source: &str, inputs: Json, limits: CompilerLimits) -> (r: Result<
    Json,
    MagError,
>)
    ensures
        json_result(r) == compiled_source(lib@, source@, inputs@, limits),
{
    let module = compile_source(source)?;
    let program = make_program(module);
    compile_cold(lib, &program, inputs, limits).1
}

/// All that a compilation of a source depends on, besides what it reads.
pub struct CompileRequest<'a> {
    pub source: &'a str,
    pub inputs: Json,
    pub options: CompilerOptions,
}

/// All that a compilation of a program in files depends on, besides what it reads.
pub struct FileCompileRequest {
    pub source_dir: String,
    pub entry: String,
    pub inputs: Json,
    pub module_roots: Vec<String>,
    pub options: CompilerOptions,
}

/// What was submitted through one session. No count depends on a cache.
#[derive(Debug, Clone, Copy, PartialEq, Eq, Structural)]
pub struct CompilerSessionStats {
    pub memory_compile_requests: u64,
    pub file_compile_requests: u64,
    pub cold_compilations: u64,
    pub successful_compilations: u64,
    pub failed_compilations: u64,
}

/// One more, as far as there is room.
pub open spec fn one_more(n: u64) -> u64 {
    if n == u64::MAX {
        n
    } else {
        (n + 1) as u64
    }
}

fn add_one(n: u64) -> (r: u64)
    ensures
        r == one_more(n),
{
    if n == u64::MAX {
        n
    } else {
        n + 1
    }
}

impl CompilerSessionStats {
    pub open spec fn memory_requested(self) -> CompilerSessionStats {
        CompilerSessionStats {
            memory_compile_requests: one_more(self.memory_compile_requests),
            cold_compilations: one_more(self.cold_compilations),
            ..self
        }
    }

    pub open spec fn file_requested(self) -> CompilerSessionStats {
        CompilerSessionStats {
            file_compile_requests: one_more(self.file_compile_requests),
            cold_compilations: one_more(self.cold_compilations),
            ..self
        }
    }

    pub open spec fn finished(self, success: bool) -> CompilerSessionStats {
        if success {
            CompilerSessionStats {
                successful_compilations: one_more(self.successful_compilations),
                ..self
            }
        } else {
            CompilerSessionStats {
                failed_compilations: one_more(self.failed_compilations),
                ..self
            }
        }
    }
}

impl Default for CompilerSessionStats {
    fn default() -> (r: CompilerSessionStats)
        ensures
            r == (CompilerSessionStats {
                memory_compile_requests: 0,
                file_compile_requests: 0,
                cold_compilations: 0,
                successful_compilations: 0,
                failed_compilations: 0,
            }),
    {
        CompilerSessionStats {
            memory_compile_requests: 0,
            file_compile_requests: 0,
            cold_compilations: 0,
            successful_compilations: 0,
            failed_compilations: 0,
        }
    }
}

/// An owner of compilations. It keeps their accounting and nothing of a compilation itself: each
/// request makes a state of its own and returns nothing but the artifact.
pub struct CompilerSession {
    pub stats: CompilerSessionStats,
}

impl CompilerSession {
    pub fn new() -> (r: CompilerSession)
        ensures
            r.stats == (CompilerSessionStats {
                memory_compile_requests: 0,
                file_compile_requests: 0,
                cold_compilations: 0,
                successful_compilations: 0,
                failed_compilations: 0,
            }),
    {
        CompilerSession { stats: CompilerSessionStats::default() }
    }

    pub fn stats(&self) -> (r: CompilerSessionStats)
        ensures
            r == self.stats,
    {
        self.stats
    }

    pub fn record_memory_compile_request(&mut self)
        ensures
            final(self).stats == old(self).stats.memory_requested(),
    {
        self.stats.memory_compile_requests = add_one(self.stats.memory_compile_requests);
        self.stats.cold_compilations = add_one(self.stats.cold_compilations);
    }

    pub fn record_file_compile_request(&mut self)
        ensures
            final(self).stats == old(self).stats.file_requested(),
    {
        self.stats.file_compile_requests = add_one(self.stats.file_compile_requests);
        self.stats.cold_compilations = add_one(self.stats.cold_compilations);
    }

    pub fn record_result(&mut self, success: bool)
        ensures
            final(self).stats == old(self).stats.finished(success),
    {
        if success {
            self.stats.successful_compilations = add_one(self.stats.successful_compilations);
        } else {
            self.stats.failed_compilations = add_one(self.stats.failed_compilations);
        }
    }

    /// Compiles a source in memory.
    pub fn compile(&mut self, lib: &Library, request: CompileRequest<'_>) -> (r: Result<
        Json,
        MagError,
    >)
        ensures
            json_result(r) == compiled_source(
                lib@,
                request.source@,
                request.inputs@,
                request.options.limits,
            ),
            final(self).stats == old(self).stats.memory_requested().finished(r is Ok),
    {
        self.record_memory_compile_request();
        let r = compile_text(lib, request.source, request.inputs, request.options.limits);
        self.record_result(r.is_ok());
        r
    }

    /// Compiles a source that was read from a file.
    pub fn compile_file(&mut self, lib: &Library, request: CompileRequest<'_>) -> (r: Result<
        Json,
        MagError,
    >)
        ensures
            json_result(r) == compiled_source(
                lib@,
                request.source@,
                request.inputs@,
                request.options.limits,
            ),
            final(self).stats == old(self).stats.file_requested().finished(r is Ok),
    {
        self.record_file_compile_request();
        let r = compile_text(lib, request.source, request.inputs, request.options.limits);
        self.record_result(r.is_ok());
        r
    }
}

fn no_inputs() -> (r: Json)
    ensures
        r@ == SJson::Object(Seq::empty()),
{
    let none: Vec<(String, Json)> = Vec::new();
    assert(crate::json::members_view(none@) =~= Seq::empty());
    Json::Object(none)
}

pub fn compile_with_inputs_and_options(
    lib: &Library,
    source: &str,
    inputs: Json,
    options: CompilerOptions,
) -> (r: Result<Json, MagError>)
    ensures
        json_result(r) == compiled_source(lib@, source@, inputs@, options.limits),
{
    let mut session = CompilerSession::new();
    session.compile(lib, CompileRequest { source, inputs, options })
}

pub fn compile_with_options(lib: &Library, source: &str, options: CompilerOptions) -> (r:
    Result<Json, MagError>)
    ensures
        json_result(r) == compiled_source(
            lib@,
            source@,
            SJson::Object(Seq::empty()),
            options.limits,
        ),
{
    compile_with_inputs_and_options(lib, source, no_inputs(), options)
}

pub fn compile_with_inputs(lib: &Library, source: &str, inputs: Json) -> (r: Result<
    Json,
    MagError,
>)
    ensures
        json_result(r) == compiled_source(lib@, source@, inputs@, limits_of(1_000_000)),
{
    compile_with_inputs_and_options(lib, source, inputs, CompilerOptions::default())
}

pub fn compile(lib: &Library, source: &str) -> (r: Result<Json, MagError>)
    ensures
        json_result(r) == compiled_source(
            lib@,
            source@,
            SJson::Object(Seq::empty()),
            limits_of(1_000_000),
        ),
{
    compile_with_options(lib, source, CompilerOptions::default())
}

} // verus!
