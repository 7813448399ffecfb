//! Runs of the module.
use crate::archive;
use crate::archive::Plain;
use crate::config;
use crate::config::{LoadError, TypeScriptConfig};
use crate::engine;
use crate::text;
use crate::text::{joined, strip, utf8_lossy};
use core::time::Duration;
use vstd::prelude::*;
use vstd::string::*;

verus! {

/// The module, ready to be run.
pub struct TypeScript {
    engine: wasmtime::Engine,
    module: wasmtime::Module,
    config: TypeScriptConfig,
}

impl TypeScript {
    /// The engine that the module is loaded into.
    pub closed spec fn engine(&self) -> wasmtime::Engine {
        self.engine
    }

    /// The compiled module.
    pub closed spec fn module(&self) -> wasmtime::Module {
        self.module
    }

    /// How the module is run.
    pub closed spec fn config(&self) -> TypeScriptConfig {
        self.config
    }

    /// Puts together what is needed to run the module.
    pub fn assemble(
        engine: wasmtime::Engine,
        module: wasmtime::Module,
        config: TypeScriptConfig,
    ) -> (r: TypeScript)
        ensures
            r.engine() == engine,
            r.module() == module,
            r.config() == config,
    {
        TypeScript { engine, module, config }
    }
}

/// A run of the module, ready to be carried out: the arguments it gets, the host
/// directories it sees and under which names, the bound on its memory, how much of its
/// output is kept, and the number of ticks after which it is stopped.
#[derive(Debug)]
pub struct Run<P> {
    pub args: Vec<String>,
    pub mounts: Vec<(P, String)>,
    pub memory_limit: Option<usize>,
    pub pipe_capacity: usize,
    pub deadline: u64,
}

/// How a run ended.
#[derive(Debug)]
pub enum Ended<E> {
    /// The guest returned.
    Returned,
    /// The guest exited with a code.
    Exited(i32),
    /// The guest was stopped, or could not be started.
    Failed(E),
}

/// What came of a run.
#[derive(Debug)]
pub struct Output {
    pub exit_code: i32,
    pub stdout: String,
    pub stderr: String,
}

/// `texts` are those of `views`, in order.
pub open spec fn says(texts: Seq<String>, views: Seq<Seq<char>>) -> bool {
    &&& texts.len() == views.len()
    &&& forall|i: int| 0 <= i < texts.len() ==> (#[trigger] texts[i])@ == views[i]
}

/// The arguments of a run: the name of the program, and then `args`.
pub open spec fn with_program(args: Seq<Seq<char>>) -> Seq<Seq<char>> {
    seq!["tsgo"@] + args
}

/// What `args` say.
pub open spec fn words(args: Seq<&str>) -> Seq<Seq<char>> {
    Seq::new(args.len(), |i: int| args[i]@)
}

impl<P> Run<P> {
    /// The run gets what a configuration gives to every run, and `deadline` ticks.
    pub open spec fn limited_by(&self, config: TypeScriptConfig, deadline: u64) -> bool {
        &&& self.memory_limit == config.memory_limit
        &&& self.pipe_capacity == config.pipe_capacity
        &&& self.deadline == deadline
    }

    /// The run sees `mounts`.
    pub open spec fn sees(&self, mounts: Seq<(P, &str)>) -> bool {
        &&& self.mounts@.len() == mounts.len()
        &&& forall|i: int|
            0 <= i < mounts.len() ==> (#[trigger] self.mounts@[i]).0 == mounts[i].0
                && self.mounts@[i].1@ == mounts[i].1@
    }
}

/// The output of a run that ended in a certain way, given what it wrote. A guest that
/// returned has exit code 0. A run that failed has no output.
pub fn output<E>(ended: Ended<E>, stdout: &[u8], stderr: &[u8]) -> (r: Result<Output, E>)
    ensures
        match (ended, r) {
            (Ended::Returned, Ok(output)) => output.exit_code == 0,
            (Ended::Exited(code), Ok(output)) => output.exit_code == code,
            (Ended::Failed(e), Err(error)) => error == e,
            _ => false,
        },
        r matches Ok(output) ==> text::reads(stdout@, output.stdout@) && text::reads(
            stderr@,
            output.stderr@,
        ),
{
    let exit_code: i32 = match ended {
        Ended::Returned => 0,
        Ended::Exited(code) => code,
        Ended::Failed(e) => {
            return Err(e);
        },
    };
    Ok(Output { exit_code, stdout: utf8_lossy(stdout), stderr: utf8_lossy(stderr) })
}

/// What a run that was asked for the version says: its output, without the white space
/// around it.
pub fn version_text(output: &Output) -> (r: String)
    ensures
        r@ == text::stripped(output.stdout@),
{
    strip(output.stdout.as_str())
}

impl TypeScript {
    /// Compiles the module, which is kept compressed, to be run under the default
    /// configuration.
    pub fn new(compressed: &[u8]) -> (r: Result<TypeScript, LoadError>)
        ensures
            match r {
                Ok(ts) => {
                    &&& ts.config().is_default()
                    &&& engine::engine_settings(ts.engine()) == config::default_settings()
                    &&& engine::belongs_to(ts.module(), ts.engine())
                    &&& archive::zstd_decoded(compressed@) matches Some(wasm)
                        && engine::is_compiled(config::default_settings(), wasm, ts.module())
                },
                Err(e) => (e is Engine || e is Unpack || e is Compile) && e.comes_from(
                    archive::zstd_decoded(compressed@),
                ),
            },
    {
        TypeScriptConfig::default().load(compressed)
    }

    /// Takes the module that was found in a cache, or compiles it where none was, to be run
    /// under the default configuration; in the latter case it also gives the bytes to be
    /// put into the cache.
    pub fn with_cache(
        engine: wasmtime::Engine,
        cached: Option<wasmtime::Module>,
        compressed: &[u8],
    ) -> (r: Result<(TypeScript, Option<Vec<u8>>), LoadError>)
        ensures
            config::cached_or_compiled(engine, cached, compressed@, r),
            r matches Ok((ts, _)) ==> ts.config().is_default() && ts.engine() == engine,
    {
        TypeScriptConfig::default().load_cached(engine, cached, compressed)
    }

    /// An engine of the default configuration, and the artifact to be loaded into it:
    /// `cwasm`, decoded if it is compressed.
    pub fn from_cwasm<'a>(cwasm: &'a [u8]) -> (r: Result<
        (wasmtime::Engine, Plain<'a>),
        LoadError,
    >)
        ensures
            match r {
                Ok((engine, plain)) => {
                    &&& engine::engine_settings(engine) == config::default_settings()
                    &&& archive::unpacked(cwasm@) == Some(plain@)
                },
                Err(e) => e is Engine || e is Unpack && archive::unpacked(cwasm@) is None,
            },
    {
        TypeScriptConfig::default().from_cwasm(cwasm)
    }

    /// The parts of the module, to be put to use: the engine, and the compiled module.
    pub fn parts(&self) -> (r: (&wasmtime::Engine, &wasmtime::Module))
        ensures
            *r.0 == self.engine(),
            *r.1 == self.module(),
    {
        (&self.engine, &self.module)
    }

    /// The configuration.
    pub fn configuration(&self) -> (r: &TypeScriptConfig)
        ensures
            *r == self.config(),
    {
        &self.config
    }

    /// A run with the given arguments, host directories and time limit. There is none
    /// where there is a limit and the ticks are too short to be counted in milliseconds.
    pub fn run<P>(
        &self,
        args: &[&str],
        mounts: Vec<(P, &str)>,
        timeout: Option<Duration>,
    ) -> (r: Option<Run<P>>)
        ensures
            match r {
                Some(run) => {
                    &&& self.config().counts(timeout)
                    &&& says(run.args@, with_program(words(args@)))
                    &&& run.sees(mounts@)
                    &&& run.limited_by(self.config(), self.config().deadline(timeout))
                },
                None => !self.config().counts(timeout),
            },
    {
        let deadline: u64 = match self.config.checked_deadline(timeout) {
            Some(deadline) => deadline,
            None => {
                return None;
            },
        };
        let mut words: Vec<String> = Vec::new();
        words.push("tsgo".to_owned());
        let mut i: usize = 0;
        while i < args.len()
            invariant
                i <= args.len(),
                words@.len() == i + 1,
                words@[0]@ == "tsgo"@,
                forall|j: int| 1 <= j <= i ==> (#[trigger] words@[j])@ == args@[j - 1]@,
            decreases args.len() - i,
        {
            words.push(args[i].to_owned());
            i += 1;
        }
        let ghost given = mounts@;
        let mut seen: Vec<(P, String)> = Vec::new();
        for mount in it: mounts
            invariant
                it.seq() == given,
                seen@.len() == it.index(),
                forall|j: int|
                    0 <= j < seen@.len() ==> (#[trigger] seen@[j]).0 == given[j].0
                        && seen@[j].1@ == given[j].1@,
        {
            let (host, guest): (P, &str) = mount;
            seen.push((host, guest.to_owned()));
        }
        Some(
            Run {
                args: words,
                mounts: seen,
                memory_limit: self.config.memory_limit,
                pipe_capacity: self.config.pipe_capacity,
                deadline,
            },
        )
    }

    /// A run that checks the file `entry` of the host directory `dir`, without output of
    /// code. There is none where there is a limit and the ticks are too short to be counted
    /// in milliseconds.
    pub fn check<P>(&self, dir: P, entry: &str, timeout: Option<Duration>) -> (r: Option<Run<P>>)
        ensures
            match r {
                Some(run) => {
                    &&& self.config().counts(timeout)
                    &&& says(
                        run.args@,
                        seq!["tsgo"@, "--noEmit"@, "/project/"@ + entry@],
                    )
                    &&& run.mounts@.len() == 1
                    &&& run.mounts@[0].0 == dir
                    &&& run.mounts@[0].1@ == "/project"@
                    &&& run.limited_by(self.config(), self.config().deadline(timeout))
                },
                None => !self.config().counts(timeout),
            },
    {
        let path: String = joined("/project/", entry);
        let args: [&str; 2] = ["--noEmit", path.as_str()];
        assert(with_program(words(args@)) =~= seq!["tsgo"@, "--noEmit"@, "/project/"@ + entry@]);
        let mut mounts: Vec<(P, &str)> = Vec::new();
        mounts.push((dir, "/project"));
        self.run(args.as_slice(), mounts, timeout)
    }

    /// A run that asks for the version.
    pub fn version<P>(&self) -> (r: Run<P>)
        ensures
            says(r.args@, seq!["tsgo"@, "--version"@]),
            r.mounts@.len() == 0,
            r.limited_by(self.config(), u64::MAX),
    {
        let args: [&str; 1] = ["--version"];
        assert(with_program(words(args@)) =~= seq!["tsgo"@, "--version"@]);
        let run: Option<Run<P>> = self.run(args.as_slice(), Vec::new(), None);
        run.unwrap()
    }
}

/// Texts that say certain words are those words, one for one and in order; a run gets the
/// name of the program and then its arguments, all of them.
pub proof fn law_runs_get_all_arguments(texts: Seq<String>, args: Seq<&str>)
    requires
        says(texts, with_program(words(args))),
    ensures
        texts.len() == args.len() + 1,
        texts[0]@ == "tsgo"@,
        forall|i: int| 0 <= i < args.len() ==> texts[i + 1]@ == #[trigger] args[i]@,
{
    assert forall|i: int| 0 <= i < args.len() implies texts[i + 1]@ == #[trigger] args[i]@ by {
        assert(texts[i + 1]@ == with_program(words(args))[i + 1]);
    }
}

/// Texts that say certain words are those words, one for one and in order.
pub proof fn law_what_texts_say(texts: Seq<String>, views: Seq<Seq<char>>)
    ensures
        says(texts, views) <==> texts.len() == views.len() && forall|i: int|
            0 <= i < views.len() ==> (#[trigger] texts[i])@ == views[i],
{
}

/// A run sees all host directories, each under its own name and in order, and is held to the
/// limits of its configuration.
pub proof fn law_runs_see_all_directories<P>(
    run: Run<P>,
    mounts: Seq<(P, &str)>,
    config: TypeScriptConfig,
    deadline: u64,
)
    ensures
        run.sees(mounts) ==> run.mounts@.len() == mounts.len() && forall|i: int|
            0 <= i < mounts.len() ==> (#[trigger] run.mounts@[i]).0 == mounts[i].0
                && run.mounts@[i].1@ == mounts[i].1@,
        run.limited_by(config, deadline) ==> run.memory_limit == config.memory_limit
            && run.pipe_capacity == config.pipe_capacity && run.deadline == deadline,
{
}

} // verus!
