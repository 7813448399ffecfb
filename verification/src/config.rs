//! How the module is compiled, loaded and run.
use crate::archive;
use crate::archive::{module_bytes, pack, unpack, Plain};
use crate::engine;
use crate::engine::{
    compile, new_config, new_engine, precompile_module, serialize, set_epoch_interruption,
    set_signals_based_traps, set_target, Setting,
};
use crate::runtime::TypeScript;
use crate::text::same_text;
use core::time::Duration;
use vstd::arithmetic::div_mod::*;
use vstd::prelude::*;
use vstd::string::*;

verus! {

/// The whole milliseconds of a duration.
pub uninterp spec fn duration_millis(duration: Duration) -> nat;

/// The duration of a number of milliseconds.
pub uninterp spec fn millis_duration(millis: u64) -> Duration;

/// `Duration::from_millis` makes a duration of the given number of milliseconds: there is
/// one for each number, and it has that many whole milliseconds.
pub assume_specification[ Duration::from_millis ](millis: u64) -> (r: Duration)
    ensures
        r == millis_duration(millis),
        duration_millis(r) == millis,
;

/// `Duration::as_millis` gives the number of whole milliseconds of a duration.
pub assume_specification[ Duration::as_millis ](duration: &Duration) -> (r: u128)
    ensures
        r == duration_millis(*duration),
;

/// How the module is compiled, loaded and run.
#[derive(Debug)]
pub struct TypeScriptConfig {
    /// Whether guest faults are caught by signal handlers, not by explicit checks.
    pub signals_based_traps: bool,
    /// A bound on the linear memory of each run.
    pub memory_limit: Option<usize>,
    /// How often time limits are looked at.
    pub epoch_tick: Duration,
    /// How much output of a run is kept.
    pub pipe_capacity: usize,
}

impl Clone for TypeScriptConfig {
    fn clone(&self) -> (r: Self)
        ensures
            r == *self,
    {
        TypeScriptConfig {
            signals_based_traps: self.signals_based_traps,
            memory_limit: self.memory_limit,
            epoch_tick: self.epoch_tick,
            pipe_capacity: self.pipe_capacity,
        }
    }
}

impl Default for TypeScriptConfig {
    fn default() -> (r: Self)
        ensures
            r.is_default(),
    {
        TypeScriptConfig {
            signals_based_traps: true,
            memory_limit: None,
            epoch_tick: Duration::from_millis(100),
            pipe_capacity: 0x400_0000,
        }
    }
}

/// Why there is no module to run.
#[derive(Debug)]
pub enum LoadError {
    /// The text stands for no target that there is.
    Target(wasmtime::Error),
    /// There is no engine for the configuration.
    Engine(wasmtime::Error),
    /// The compressed module cannot be decoded.
    Unpack(std::io::Error),
    /// The module cannot be compiled.
    Compile(wasmtime::Error),
    /// The compiled module cannot be handed out.
    Serialize(wasmtime::Error),
    /// The artifact cannot be compressed.
    Pack(std::io::Error),
}

impl LoadError {
    /// The error comes from a compressed module that decodes to `wasm`: one that cannot be
    /// decoded leads to no later error, and one that can be is not called undecodable.
    pub open spec fn comes_from(&self, wasm: Option<Seq<u8>>) -> bool {
        match self {
            LoadError::Target(_) | LoadError::Engine(_) => true,
            LoadError::Unpack(_) => wasm is None,
            LoadError::Compile(_) | LoadError::Serialize(_) | LoadError::Pack(_) => wasm is Some,
        }
    }
}

/// The quotient of `a` and `b`, rounded up.
pub open spec fn rounded_up(a: nat, b: nat) -> nat {
    (if a % b == 0 {
        a / b
    } else {
        a / b + 1
    }) as nat
}

/// The number of ticks after which a run is stopped that may take `timeout` milliseconds,
/// with `tick` milliseconds to a tick: one more than the time fills, since the current tick
/// may be nearly over. A run without a limit gets the largest number.
pub open spec fn deadline_ticks(timeout: Option<nat>, tick: nat) -> u64 {
    match timeout {
        Some(timeout) => ((rounded_up(timeout, tick) + 1) % 0x1_0000_0000_0000_0000) as u64,
        None => u64::MAX,
    }
}

/// The milliseconds of a time limit.
pub open spec fn timeout_millis(timeout: Option<Duration>) -> Option<nat> {
    match timeout {
        Some(timeout) => Some(duration_millis(timeout)),
        None => None,
    }
}

/// The targets that cannot be had.
pub open spec fn bad_target(target: Option<&str>) -> bool {
    target is Some && engine::target_triple(target->Some_0@) is None
}

/// `r` holds `engine`, and the module that was found in a cache, or, where none was, one
/// compiled by `engine`, with the artifact to be cached. A module from the cache belongs to
/// the engine beside it if it did so before.
pub open spec fn cached_or_compiled(
    engine: wasmtime::Engine,
    cached: Option<wasmtime::Module>,
    compressed: Seq<u8>,
    r: Result<(TypeScript, Option<Vec<u8>>), LoadError>,
) -> bool {
    match (cached, r) {
        (Some(module), Ok((ts, bytes))) => ts.engine() == engine && ts.module() == module
            && bytes is None && (engine::belongs_to(module, engine) ==> engine::belongs_to(
            ts.module(),
            ts.engine(),
        )),
        (Some(_), Err(_)) => false,
        (None, Ok((ts, bytes))) => {
            let settings = engine::engine_settings(engine);
            &&& ts.engine() == engine
            &&& engine::belongs_to(ts.module(), ts.engine())
            &&& archive::zstd_decoded(compressed) matches Some(wasm) && engine::is_compiled(
                settings,
                wasm,
                ts.module(),
            ) && (bytes matches Some(bytes) && engine::is_artifact(settings, wasm, bytes@)
                && !archive::magic().is_prefix_of(bytes@))
        },
        (None, Err(e)) => (e is Unpack || e is Compile || e is Serialize) && e.comes_from(
            archive::zstd_decoded(compressed),
        ),
    }
}

/// An artifact to be written to a file of the given name.
#[derive(Debug)]
pub struct Artifact {
    pub file_name: String,
    pub bytes: Vec<u8>,
}

impl TypeScriptConfig {
    /// The configuration that there is by default: faults are caught by signals, memory is
    /// not bounded, limits are looked at every tenth of a second, and 64 MiB of output are
    /// kept.
    pub open spec fn is_default(&self) -> bool {
        &&& self.signals_based_traps
        &&& self.memory_limit is None
        &&& self.epoch_tick == millis_duration(100)
        &&& duration_millis(self.epoch_tick) == 100
        &&& self.pipe_capacity == 0x400_0000
    }

    /// Whether a time limit can be counted in ticks.
    pub open spec fn counts(&self, timeout: Option<Duration>) -> bool {
        timeout is Some ==> duration_millis(self.epoch_tick) > 0
    }

    /// The number of ticks after which a run is stopped.
    pub open spec fn deadline(&self, timeout: Option<Duration>) -> u64 {
        deadline_ticks(timeout_millis(timeout), duration_millis(self.epoch_tick))
    }

    /// The settings of the engines that this configuration leads to: of all its fields only
    /// the way guest faults are caught matters.
    pub open spec fn settings(&self) -> Map<Seq<char>, Setting> {
        map![
            "epoch_interruption"@ => Setting::Flag(true),
            "signals_based_traps"@ => Setting::Flag(self.signals_based_traps),
        ]
    }

    /// The settings of the engines that this configuration leads to for a target.
    pub open spec fn settings_for(&self, target: Option<&str>) -> Map<Seq<char>, Setting> {
        match target {
            Some(target) => self.settings().insert(
                "target"@,
                Setting::Target(engine::target_triple(target@)->Some_0),
            ),
            None => self.settings(),
        }
    }

    /// The configuration of the engine.
    fn wasmtime_config(&self) -> (r: wasmtime::Config)
        ensures
            engine::config_settings(r) == self.settings(),
    {
        let mut config: wasmtime::Config = new_config();
        set_epoch_interruption(&mut config, true);
        set_signals_based_traps(&mut config, self.signals_based_traps);
        assert(engine::config_settings(config) =~= self.settings());
        config
    }

    /// An engine to load the module into.
    pub fn engine(&self) -> (r: Result<wasmtime::Engine, LoadError>)
        ensures
            match r {
                Ok(engine) => engine::engine_settings(engine) == self.settings(),
                Err(e) => e is Engine,
            },
    {
        match new_engine(&self.wasmtime_config()) {
            Ok(engine) => Ok(engine),
            Err(e) => Err(LoadError::Engine(e)),
        }
    }

    /// Compiles the module, which is kept compressed, to be run.
    pub fn load(&self, compressed: &[u8]) -> (r: Result<TypeScript, LoadError>)
        ensures
            match r {
                Ok(ts) => {
                    &&& ts.config() == *self
                    &&& engine::engine_settings(ts.engine()) == self.settings()
                    &&& engine::belongs_to(ts.module(), ts.engine())
                    &&& archive::zstd_decoded(compressed@) matches Some(wasm)
                        && engine::is_compiled(self.settings(), wasm, ts.module())
                },
                Err(e) => (e is Engine || e is Unpack || e is Compile) && e.comes_from(
                    archive::zstd_decoded(compressed@),
                ),
            },
    {
        let engine: wasmtime::Engine = match self.engine() {
            Ok(engine) => engine,
            Err(e) => {
                return Err(e);
            },
        };
        match compiled(&engine, compressed) {
            Ok(module) => Ok(TypeScript::assemble(engine, module, self.clone())),
            Err(e) => Err(e),
        }
    }

    /// Takes the module that was found in a cache, or compiles it where none was; in that
    /// case it also gives the bytes to be put into the cache.
    pub fn load_cached(
        &self,
        engine: wasmtime::Engine,
        cached: Option<wasmtime::Module>,
        compressed: &[u8],
    ) -> (r: Result<(TypeScript, Option<Vec<u8>>), LoadError>)
        ensures
            cached_or_compiled(engine, cached, compressed@, r),
            r matches Ok((ts, _)) ==> ts.config() == *self && ts.engine() == engine,
    {
        match cached {
            Some(module) => Ok((TypeScript::assemble(engine, module, self.clone()), None)),
            None => {
                let module: wasmtime::Module = match compiled(&engine, compressed) {
                    Ok(module) => module,
                    Err(e) => {
                        return Err(e);
                    },
                };
                let bytes: Vec<u8> = match serialize(&module) {
                    Ok(bytes) => bytes,
                    Err(e) => {
                        return Err(LoadError::Serialize(e));
                    },
                };
                Ok((TypeScript::assemble(engine, module, self.clone()), Some(bytes)))
            },
        }
    }

    /// An engine, and the artifact to be loaded into it: `cwasm`, decoded if it is
    /// compressed.
    pub fn from_cwasm<'a>(&self, cwasm: &'a [u8]) -> (r: Result<
        (wasmtime::Engine, Plain<'a>),
        LoadError,
    >)
        ensures
            match r {
                Ok((engine, plain)) => {
                    &&& engine::engine_settings(engine) == self.settings()
                    &&& archive::unpacked(cwasm@) == Some(plain@)
                },
                Err(e) => e is Engine || e is Unpack && archive::unpacked(cwasm@) is None,
            },
    {
        let engine: wasmtime::Engine = match self.engine() {
            Ok(engine) => engine,
            Err(e) => {
                return Err(e);
            },
        };
        match unpack(cwasm) {
            Ok(plain) => Ok((engine, plain)),
            Err(e) => Err(LoadError::Unpack(e)),
        }
    }

    /// Compiles the module, which is kept compressed, to an artifact, for another target
    /// if one is given.
    pub fn precompile(&self, compressed: &[u8], target: Option<&str>) -> (r: Result<
        Vec<u8>,
        LoadError,
    >)
        ensures
            match r {
                Ok(bytes) => archive::zstd_decoded(compressed@) matches Some(wasm)
                    && engine::is_artifact(self.settings_for(target), wasm, bytes@)
                    && !archive::magic().is_prefix_of(bytes@),
                Err(e) => (e is Target || e is Engine || e is Unpack || e is Compile)
                    && e.comes_from(archive::zstd_decoded(compressed@)),
            },
            (r matches Err(e) && e is Target) <==> bad_target(target),
    {
        let mut config: wasmtime::Config = self.wasmtime_config();
        if let Some(target) = target {
            if let Err(e) = set_target(&mut config, target) {
                return Err(LoadError::Target(e));
            }
        }
        let engine: wasmtime::Engine = match new_engine(&config) {
            Ok(engine) => engine,
            Err(e) => {
                return Err(LoadError::Engine(e));
            },
        };
        let wasm: Vec<u8> = match module_bytes(compressed) {
            Ok(wasm) => wasm,
            Err(e) => {
                return Err(LoadError::Unpack(e));
            },
        };
        match precompile_module(&engine, wasm.as_slice()) {
            Ok(bytes) => Ok(bytes),
            Err(e) => Err(LoadError::Compile(e)),
        }
    }

    /// The artifact that a build script writes for `target` on `host`.
    pub fn build_cwasm(&self, compressed: &[u8], target: &str, host: &str) -> (r: Result<
        Artifact,
        LoadError,
    >)
        ensures
            match r {
                Ok(artifact) => {
                    &&& artifact.file_name@ == "tsgo.cwasm"@
                    &&& !archive::magic().is_prefix_of(artifact.bytes@)
                    &&& archive::zstd_decoded(compressed@) matches Some(wasm)
                        && engine::is_artifact(
                        self.settings_for(cross(target, host)),
                        wasm,
                        artifact.bytes@,
                    )
                },
                Err(e) => (e is Target || e is Engine || e is Unpack || e is Compile)
                    && e.comes_from(archive::zstd_decoded(compressed@)),
            },
            (r matches Err(e) && e is Target) <==> bad_target(cross(target, host)),
    {
        match self.precompile(compressed, cross_target(target, host)) {
            Ok(bytes) => Ok(Artifact { file_name: "tsgo.cwasm".to_owned(), bytes }),
            Err(e) => Err(e),
        }
    }

    /// The compressed artifact that a build script writes for `target` on `host`.
    pub fn build_cwasm_zst(
        &self,
        compressed: &[u8],
        target: &str,
        host: &str,
        level: i32,
    ) -> (r: Result<Artifact, LoadError>)
        ensures
            match r {
                Ok(artifact) => {
                    &&& artifact.file_name@ == "tsgo.cwasm.zst"@
                    &&& archive::magic().is_prefix_of(artifact.bytes@)
                    &&& archive::zstd_decoded(compressed@) matches Some(wasm)
                        && archive::unpacked(artifact.bytes@) matches Some(plain)
                        && !archive::magic().is_prefix_of(plain)
                        && archive::is_zstd(plain, level, artifact.bytes@) && engine::is_artifact(
                        self.settings_for(cross(target, host)),
                        wasm,
                        plain,
                    )
                },
                Err(e) => (e is Target || e is Engine || e is Unpack || e is Compile)
                    && e.comes_from(archive::zstd_decoded(compressed@)),
            },
            (r matches Err(e) && e is Target) <==> bad_target(cross(target, host)),
    {
        let bytes: Vec<u8> = match self.precompile(compressed, cross_target(target, host)) {
            Ok(bytes) => bytes,
            Err(e) => {
                return Err(e);
            },
        };
        match pack(bytes.as_slice(), level) {
            Ok(bytes) => Ok(Artifact { file_name: "tsgo.cwasm.zst".to_owned(), bytes }),
            Err(e) => Err(LoadError::Pack(e)),
        }
    }

    /// The number of ticks after which a run is stopped. The ticks must be long enough to
    /// be counted in milliseconds, unless there is no limit.
    pub fn epoch_deadline(&self, timeout: Option<Duration>) -> (r: u64)
        requires
            self.counts(timeout),
        ensures
            r == self.deadline(timeout),
    {
        match timeout {
            None => u64::MAX,
            Some(timeout) => {
                let millis: u128 = timeout.as_millis();
                let tick: u128 = self.epoch_tick.as_millis();
                let full: u128 = millis / tick;
                let limit: u128 = 0x1_0000_0000_0000_0000;
                let up: u128 = if millis % tick == 0 {
                    1
                } else {
                    2
                };
                proof {
                    lemma_add_mod_noop(full as int, up as int, limit as int);
                    lemma_small_mod(up as nat, limit as nat);
                    lemma_mod_bound(full as int, limit as int);
                }
                ((full % limit + up) % limit) as u64
            },
        }
    }

    /// The number of ticks after which a run is stopped, if the limit can be counted in
    /// ticks.
    pub fn checked_deadline(&self, timeout: Option<Duration>) -> (r: Option<u64>)
        ensures
            match r {
                Some(ticks) => self.counts(timeout) && ticks == self.deadline(timeout),
                None => !self.counts(timeout),
            },
    {
        if timeout.is_some() && self.epoch_tick.as_millis() == 0 {
            None
        } else {
            Some(self.epoch_deadline(timeout))
        }
    }
}

/// Two configurations lead to the same settings exactly if they agree on the way guest
/// faults are caught: nothing else in them matters, with a target or without. The settings
/// for no target, under which artifacts are made for the host, are those of the engines that
/// artifacts are loaded into.
pub proof fn law_settings_agree(
    config: TypeScriptConfig,
    other: TypeScriptConfig,
    target: Option<&str>,
)
    ensures
        config.settings_for(None) == config.settings(),
        config.signals_based_traps == other.signals_based_traps <==> config.settings()
            == other.settings(),
        config.signals_based_traps == other.signals_based_traps <==> config.settings_for(target)
            == other.settings_for(target),
{
    reveal_strlit("epoch_interruption");
    reveal_strlit("signals_based_traps");
    reveal_strlit("target");
    let name = "signals_based_traps"@;
    assert("target"@.len() == 6);
    assert(name.len() == 19);
    assert("epoch_interruption"@.len() == 18);
    assert(config.settings()[name] == Setting::Flag(config.signals_based_traps));
    assert(other.settings()[name] == Setting::Flag(other.signals_based_traps));
    assert(config.settings_for(target)[name] == Setting::Flag(config.signals_based_traps));
    assert(other.settings_for(target)[name] == Setting::Flag(other.signals_based_traps));
}

/// A run is stopped no sooner than its time limit, even if the current tick is nearly over
/// when it starts, and less than two ticks later than the limit. The limit must not take
/// more ticks than can be counted.
pub proof fn law_limits_are_kept(timeout: nat, tick: nat)
    requires
        tick > 0,
        rounded_up(timeout, tick) < u64::MAX,
    ensures
        (deadline_ticks(Some(timeout), tick) - 1) * tick >= timeout,
        deadline_ticks(Some(timeout), tick) * tick < timeout + 2 * tick,
{
    let full = timeout / tick;
    lemma_fundamental_div_mod(timeout as int, tick as int);
    lemma_mod_bound(timeout as int, tick as int);
    lemma_small_mod(rounded_up(timeout, tick) + 1, 0x1_0000_0000_0000_0000);
    assert((full + 1) * tick == full * tick + tick) by (nonlinear_arith);
    assert((full + 2) * tick == full * tick + 2 * tick) by (nonlinear_arith);
    assert(full * tick == tick * full) by (nonlinear_arith);
}

/// A longer limit never stops a run sooner, and having no limit never stops it sooner than
/// having one. The longer limit must not take more ticks than can be counted.
pub proof fn law_longer_limits_stop_later(timeout: nat, longer: nat, tick: nat)
    requires
        tick > 0,
        timeout <= longer,
        rounded_up(longer, tick) < u64::MAX,
    ensures
        deadline_ticks(Some(timeout), tick) <= deadline_ticks(Some(longer), tick)
            <= deadline_ticks(None, tick),
{
    law_limits_are_kept(longer, tick);
    lemma_small_mod(rounded_up(longer, tick) + 1, 0x1_0000_0000_0000_0000);
    let a = rounded_up(timeout, tick) as int;
    let b = rounded_up(longer, tick) as int;
    assert(a <= b) by {
        lemma_fundamental_div_mod(timeout as int, tick as int);
        lemma_fundamental_div_mod(longer as int, tick as int);
        lemma_mod_bound(timeout as int, tick as int);
        lemma_mod_bound(longer as int, tick as int);
        lemma_div_is_ordered(timeout as int, longer as int, tick as int);
    }
    lemma_small_mod((a + 1) as nat, 0x1_0000_0000_0000_0000);
}

/// The target that is compiled for, if it is not the host.
pub open spec fn cross<'a>(target: &'a str, host: &str) -> Option<&'a str> {
    if target@ == host@ {
        None
    } else {
        Some(target)
    }
}

/// The target that is compiled for, if it is not the host.
pub fn cross_target<'a>(target: &'a str, host: &str) -> (r: Option<&'a str>)
    ensures
        r == cross(target, host),
{
    if same_text(target, host) {
        None
    } else {
        Some(target)
    }
}

/// Compiles the module, which is kept compressed.
fn compiled(engine: &wasmtime::Engine, compressed: &[u8]) -> (r: Result<
    wasmtime::Module,
    LoadError,
>)
    ensures
        match r {
            Ok(module) => archive::zstd_decoded(compressed@) matches Some(wasm)
                && engine::is_compiled(engine::engine_settings(*engine), wasm, module)
                && engine::belongs_to(module, *engine),
            Err(e) => (e is Unpack || e is Compile) && e.comes_from(
                archive::zstd_decoded(compressed@),
            ),
        },
{
    let wasm: Vec<u8> = match module_bytes(compressed) {
        Ok(wasm) => wasm,
        Err(e) => {
            return Err(LoadError::Unpack(e));
        },
    };
    match compile(engine, wasm.as_slice()) {
        Ok(module) => Ok(module),
        Err(e) => Err(LoadError::Compile(e)),
    }
}

/// Compiles the module, which is kept compressed, to an artifact under the default
/// configuration.
pub fn precompile(compressed: &[u8], target: Option<&str>) -> (r: Result<Vec<u8>, LoadError>)
    ensures
        match r {
            Ok(bytes) => archive::zstd_decoded(compressed@) matches Some(wasm)
                && engine::is_artifact(default_settings_for(target), wasm, bytes@)
                && !archive::magic().is_prefix_of(bytes@),
            Err(e) => (e is Target || e is Engine || e is Unpack || e is Compile) && e.comes_from(
                archive::zstd_decoded(compressed@),
            ),
        },
        (r matches Err(e) && e is Target) <==> bad_target(target),
{
    TypeScriptConfig::default().precompile(compressed, target)
}

/// The artifact that a build script writes under the default configuration.
pub fn build_cwasm(compressed: &[u8], target: &str, host: &str) -> (r: Result<Artifact, LoadError>)
    ensures
        match r {
            Ok(artifact) => {
                &&& artifact.file_name@ == "tsgo.cwasm"@
                &&& !archive::magic().is_prefix_of(artifact.bytes@)
                &&& archive::zstd_decoded(compressed@) matches Some(wasm) && engine::is_artifact(
                    default_settings_for(cross(target, host)),
                    wasm,
                    artifact.bytes@,
                )
            },
            Err(e) => (e is Target || e is Engine || e is Unpack || e is Compile) && e.comes_from(
                archive::zstd_decoded(compressed@),
            ),
        },
        (r matches Err(e) && e is Target) <==> bad_target(cross(target, host)),
{
    TypeScriptConfig::default().build_cwasm(compressed, target, host)
}

/// The compressed artifact that a build script writes under the default configuration.
pub fn build_cwasm_zst(compressed: &[u8], target: &str, host: &str, level: i32) -> (r: Result<
    Artifact,
    LoadError,
>)
    ensures
        match r {
            Ok(artifact) => {
                &&& artifact.file_name@ == "tsgo.cwasm.zst"@
                &&& archive::magic().is_prefix_of(artifact.bytes@)
                &&& archive::zstd_decoded(compressed@) matches Some(wasm) && archive::unpacked(
                    artifact.bytes@,
                ) matches Some(plain) && !archive::magic().is_prefix_of(plain)
                    && archive::is_zstd(plain, level, artifact.bytes@)
                    && engine::is_artifact(
                    default_settings_for(cross(target, host)),
                    wasm,
                    plain,
                )
            },
            Err(e) => (e is Target || e is Engine || e is Unpack || e is Compile) && e.comes_from(
                archive::zstd_decoded(compressed@),
            ),
        },
        (r matches Err(e) && e is Target) <==> bad_target(cross(target, host)),
{
    TypeScriptConfig::default().build_cwasm_zst(compressed, target, host, level)
}

/// The settings of the engines that the default configuration leads to for a target.
pub open spec fn default_settings_for(target: Option<&str>) -> Map<Seq<char>, Setting> {
    match target {
        Some(target) => default_settings().insert(
            "target"@,
            Setting::Target(engine::target_triple(target@)->Some_0),
        ),
        None => default_settings(),
    }
}

/// The settings of the engines that the default configuration leads to.
pub open spec fn default_settings() -> Map<Seq<char>, Setting> {
    map![
        "epoch_interruption"@ => Setting::Flag(true),
        "signals_based_traps"@ => Setting::Flag(true),
    ]
}

} // verus!
