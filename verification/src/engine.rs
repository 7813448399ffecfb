//! Compiling the module with `wasmtime`.
use crate::archive;
use vstd::prelude::*;

verus! {

/// The value of a setting of an engine.
pub enum Setting {
    Flag(bool),
    Target(Seq<char>),
}

/// A configuration of `wasmtime`.
#[verifier::external_type_specification]
#[verifier::external_body]
pub struct ExConfig(wasmtime::Config);

/// An engine of `wasmtime`.
#[verifier::external_type_specification]
#[verifier::external_body]
pub struct ExEngine(wasmtime::Engine);

/// A compiled module of `wasmtime`.
#[verifier::external_type_specification]
#[verifier::external_body]
pub struct ExModule(wasmtime::Module);

/// An error of `wasmtime`.
#[verifier::external_type_specification]
#[verifier::external_body]
pub struct ExEngineError(wasmtime::Error);

/// The settings that have been made in a configuration, by name: those of a flag, and
/// that of the target.
pub uninterp spec fn config_settings(config: wasmtime::Config) -> Map<Seq<char>, Setting>;

/// No settings.
pub open spec fn no_settings() -> Map<Seq<char>, Setting> {
    Map::empty()
}

/// The settings of the configuration that an engine was made from.
pub uninterp spec fn engine_settings(engine: wasmtime::Engine) -> Map<Seq<char>, Setting>;

/// The target triple that `text` stands for, in a normal form; nothing where it stands for
/// none.
pub uninterp spec fn target_triple(text: Seq<char>) -> Option<Seq<char>>;

/// An engine with the given settings may compile `wasm` to `module`.
pub uninterp spec fn is_compiled(
    settings: Map<Seq<char>, Setting>,
    wasm: Seq<u8>,
    module: wasmtime::Module,
) -> bool;

/// The module can be run by the engine: it was made by that engine.
pub uninterp spec fn belongs_to(module: wasmtime::Module, engine: wasmtime::Engine) -> bool;

/// An engine with the given settings may compile `wasm` to the artifact `bytes`.
pub uninterp spec fn is_artifact(
    settings: Map<Seq<char>, Setting>,
    wasm: Seq<u8>,
    bytes: Seq<u8>,
) -> bool;

/// Calls `Config::new`: no flag and no target is set.
#[verifier::external_body]
pub(crate) fn new_config() -> (r: wasmtime::Config)
    ensures
        config_settings(r) == no_settings(),
{
    wasmtime::Config::new()
}

/// Calls `Config::epoch_interruption`, which sets that flag and no other setting.
#[verifier::external_body]
pub(crate) fn set_epoch_interruption(config: &mut wasmtime::Config, enable: bool)
    ensures
        config_settings(*final(config)) == config_settings(*old(config)).insert(
            "epoch_interruption"@,
            Setting::Flag(enable),
        ),
{
    config.epoch_interruption(enable);
}

/// Calls `Config::signals_based_traps`, which sets that flag and no other setting.
#[verifier::external_body]
pub(crate) fn set_signals_based_traps(config: &mut wasmtime::Config, enable: bool)
    ensures
        config_settings(*final(config)) == config_settings(*old(config)).insert(
            "signals_based_traps"@,
            Setting::Flag(enable),
        ),
{
    config.signals_based_traps(enable);
}

/// Calls `Config::target`, which parses a target triple and sets it, or fails and sets
/// nothing. Whether it succeeds depends on the text alone. Which texts stand for a triple
/// is not stated.
#[verifier::external_body]
pub(crate) fn set_target(config: &mut wasmtime::Config, target: &str) -> (r: Result<
    (),
    wasmtime::Error,
>)
    ensures
        match target_triple(target@) {
            Some(triple) => {
                &&& r is Ok
                &&& config_settings(*final(config)) == config_settings(*old(config)).insert(
                    "target"@,
                    Setting::Target(triple),
                )
            },
            None => {
                &&& r is Err
                &&& config_settings(*final(config)) == config_settings(*old(config))
            },
        },
{
    config.target(target).map(|_| ())
}

/// Calls `Engine::new`: an engine keeps the configuration it is made from. Whether there is
/// one depends on the machine, and nothing is stated of it.
#[verifier::external_body]
pub(crate) fn new_engine(config: &wasmtime::Config) -> (r: Result<
    wasmtime::Engine,
    wasmtime::Error,
>)
    ensures
        r matches Ok(engine) ==> engine_settings(engine) == config_settings(*config),
{
    wasmtime::Engine::new(config)
}

/// Calls `Module::new`, which compiles the bytes of a module under the settings of the
/// engine. The code that comes out, and whether any does, depends on the machine too: the
/// result is one of those that these settings and bytes may lead to. The module keeps the
/// engine it was made by, and no other engine runs it.
#[verifier::external_body]
pub(crate) fn compile(engine: &wasmtime::Engine, wasm: &[u8]) -> (r: Result<
    wasmtime::Module,
    wasmtime::Error,
>)
    ensures
        r matches Ok(module) ==> is_compiled(engine_settings(*engine), wasm@, module)
            && belongs_to(module, *engine),
{
    wasmtime::Module::new(engine, wasm)
}

/// Calls `Module::serialize`, which hands out the artifact that a compiled module is held
/// in: an ELF file, which does not start as compressed data does. It fails for a module taken
/// out of a component, and nothing is stated of when.
#[verifier::external_body]
pub(crate) fn serialize(module: &wasmtime::Module) -> (r: Result<Vec<u8>, wasmtime::Error>)
    ensures
        r matches Ok(bytes) ==> forall|settings: Map<Seq<char>, Setting>, wasm: Seq<u8>| #[trigger]
            is_compiled(settings, wasm, *module) ==> is_artifact(settings, wasm, bytes@),
        r matches Ok(bytes) ==> !archive::magic().is_prefix_of(bytes@),
{
    module.serialize()
}

/// Calls `Engine::precompile_module`, which compiles the bytes of a module to an artifact
/// under the settings of the engine. The code that comes out, and whether any does, depends
/// on the machine too: the result is one of those that these settings and bytes may lead
/// to. It is an ELF file, which does not start as compressed data does.
#[verifier::external_body]
pub(crate) fn precompile_module(engine: &wasmtime::Engine, wasm: &[u8]) -> (r: Result<
    Vec<u8>,
    wasmtime::Error,
>)
    ensures
        r matches Ok(bytes) ==> is_artifact(engine_settings(*engine), wasm@, bytes@)
            && !archive::magic().is_prefix_of(bytes@),
{
    engine.precompile_module(wasm)
}

} // verus!
