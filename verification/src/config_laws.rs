//! What holds of configurations, whatever they are.
use crate::archive;
use crate::config;
use crate::config::{LoadError, TypeScriptConfig};
use crate::engine;
use crate::engine::Setting;
use crate::runtime::TypeScript;
use core::time::Duration;
use vstd::arithmetic::div_mod::*;
use vstd::prelude::*;

verus! {

proof fn lemma_settings_differ()
    ensures
        "epoch_interruption"@ != "signals_based_traps"@,
        "epoch_interruption"@ != "target"@,
        "signals_based_traps"@ != "target"@,
{
    reveal_strlit("epoch_interruption");
    reveal_strlit("signals_based_traps");
    reveal_strlit("target");
    assert("epoch_interruption"@.len() == 18);
    assert("signals_based_traps"@.len() == 19);
    assert("target"@.len() == 6);
}

/// Every engine, and every artifact, is made with epoch interruption on, so that every run
/// can be stopped: under any configuration, and with any target.
pub proof fn law_runs_can_always_be_stopped(config: TypeScriptConfig, target: Option<&str>)
    ensures
        config.settings().contains_key("epoch_interruption"@),
        config.settings()["epoch_interruption"@] == Setting::Flag(true),
        config.settings_for(target).contains_key("epoch_interruption"@),
        config.settings_for(target)["epoch_interruption"@] == Setting::Flag(true),
        config::default_settings().contains_key("epoch_interruption"@),
        config::default_settings()["epoch_interruption"@] == Setting::Flag(true),
        config::default_settings_for(target).contains_key("epoch_interruption"@),
        config::default_settings_for(target)["epoch_interruption"@] == Setting::Flag(true),
{
    lemma_settings_differ();
}

/// Guest faults are caught as the configuration says, by default by signals, with any target.
pub proof fn law_faults_are_caught_as_configured(config: TypeScriptConfig, target: Option<&str>)
    ensures
        config.settings().contains_key("signals_based_traps"@),
        config.settings()["signals_based_traps"@] == Setting::Flag(config.signals_based_traps),
        config.settings_for(target).contains_key("signals_based_traps"@),
        config.settings_for(target)["signals_based_traps"@] == Setting::Flag(
            config.signals_based_traps,
        ),
        config::default_settings().contains_key("signals_based_traps"@),
        config::default_settings()["signals_based_traps"@] == Setting::Flag(true),
        config::default_settings_for(target).contains_key("signals_based_traps"@),
        config::default_settings_for(target)["signals_based_traps"@] == Setting::Flag(true),
{
    lemma_settings_differ();
}

/// No other settings are made, but that of the target where there is one.
pub proof fn law_no_other_settings(config: TypeScriptConfig, target: &str)
    ensures
        config.settings().dom() == set!["epoch_interruption"@, "signals_based_traps"@],
        config.settings_for(None).dom() == set!["epoch_interruption"@, "signals_based_traps"@],
        config.settings_for(Some(target)).dom() == set![
            "epoch_interruption"@,
            "signals_based_traps"@,
            "target"@,
        ],
        config::default_settings().dom() == set!["epoch_interruption"@, "signals_based_traps"@],
        config::default_settings_for(None).dom() == set![
            "epoch_interruption"@,
            "signals_based_traps"@,
        ],
        config::default_settings_for(Some(target)).dom() == set![
            "epoch_interruption"@,
            "signals_based_traps"@,
            "target"@,
        ],
{
    let two = set!["epoch_interruption"@, "signals_based_traps"@];
    let three = set!["epoch_interruption"@, "signals_based_traps"@, "target"@];
    assert(config.settings().dom() =~= two);
    assert(config.settings_for(Some(target)).dom() =~= three);
    assert(config::default_settings().dom() =~= two);
    assert(config::default_settings_for(Some(target)).dom() =~= three);
}

/// An artifact for a target is made under settings that hold the triple of that target.
pub proof fn law_artifacts_are_made_for_their_target(
    config: TypeScriptConfig,
    target: &str,
    triple: Seq<char>,
)
    requires
        engine::target_triple(target@) == Some(triple),
    ensures
        config.settings_for(Some(target)).contains_key("target"@),
        config.settings_for(Some(target))["target"@] == Setting::Target(triple),
        config::default_settings_for(Some(target)).contains_key("target"@),
        config::default_settings_for(Some(target))["target"@] == Setting::Target(triple),
{
}

/// Targets of different triples have different settings, and none has those of the host, for
/// which no target is set.
pub proof fn law_targets_tell_artifacts_apart(
    config: TypeScriptConfig,
    target: &str,
    other: &str,
)
    requires
        engine::target_triple(target@) is Some,
        engine::target_triple(other@) is Some,
    ensures
        engine::target_triple(target@) != engine::target_triple(other@) ==> config.settings_for(
            Some(target),
        ) != config.settings_for(Some(other)),
        config.settings_for(Some(target)) != config.settings_for(None),
        !config.settings_for(None).contains_key("target"@),
        engine::target_triple(target@) != engine::target_triple(other@)
            ==> config::default_settings_for(Some(target)) != config::default_settings_for(
            Some(other),
        ),
        config::default_settings_for(Some(target)) != config::default_settings_for(None),
        !config::default_settings_for(None).contains_key("target"@),
{
    lemma_settings_differ();
    law_no_other_settings(config, target);
    let (a, b) = (
        engine::target_triple(target@)->Some_0,
        engine::target_triple(other@)->Some_0,
    );
    law_artifacts_are_made_for_their_target(config, target, a);
    law_artifacts_are_made_for_their_target(config, other, b);
}

/// The default configuration leads to the settings of any configuration that catches faults
/// by signals.
pub proof fn law_default_settings_are_those_of_the_default(
    config: TypeScriptConfig,
    target: Option<&str>,
)
    requires
        config.is_default(),
    ensures
        config.settings() == config::default_settings(),
        config.settings_for(target) == config::default_settings_for(target),
        config.signals_based_traps,
        config.memory_limit is None,
        config.epoch_tick == config::millis_duration(100),
        config.pipe_capacity == 64 * 1024 * 1024,
{
}

/// A target is compiled for exactly if it is not the host, and then it is that target.
pub proof fn law_cross_compiling(target: &str, host: &str)
    ensures
        config::cross(target, host) is None <==> target@ == host@,
        config::cross(target, host) matches Some(t) ==> t@ == target@,
{
}

/// A target is bad exactly if it is given and stands for no triple.
pub proof fn law_bad_targets(target: &str)
    ensures
        config::bad_target(Some(target)) <==> engine::target_triple(target@) is None,
        !config::bad_target(None),
{
}

/// `quotient` ticks of `tick` milliseconds fill a limit of `timeout` milliseconds, and one
/// fewer do not.
pub open spec fn fill(quotient: nat, tick: nat, timeout: nat) -> bool {
    &&& quotient * tick >= timeout
    &&& quotient > 0 ==> (quotient - 1) * tick < timeout
}

/// A run is stopped one tick after those that fill its limit. Of the number only the low 64
/// bits count. A run without a limit gets the largest number of ticks.
pub proof fn law_deadline_is_one_tick_more(timeout: nat, tick: nat, quotient: nat)
    requires
        tick > 0,
        fill(quotient, tick, timeout),
    ensures
        config::deadline_ticks(Some(timeout), tick) as int == (quotient + 1)
            % 0x1_0000_0000_0000_0000,
        config::deadline_ticks(None, tick) == 0xFFFF_FFFF_FFFF_FFFF,
{
    let full = timeout / tick;
    let rest = timeout % tick;
    lemma_fundamental_div_mod(timeout as int, tick as int);
    lemma_mod_bound(timeout as int, tick as int);
    let up = config::rounded_up(timeout, tick);
    assert(full * tick == tick * full) by (nonlinear_arith);
    assert((full + 1) * tick == full * tick + tick) by (nonlinear_arith);
    assert(up * tick >= timeout);
    assert(up > 0 ==> (up - 1) * tick < timeout) by {
        if rest == 0 && up > 0 {
            assert((full - 1) * tick == full * tick - tick) by (nonlinear_arith);
        }
    }
    if quotient < up {
        assert(quotient * tick <= (up - 1) * tick) by (nonlinear_arith)
            requires
                quotient <= up - 1,
        ;
    }
    if up < quotient {
        assert(up * tick <= (quotient - 1) * tick) by (nonlinear_arith)
            requires
                up <= quotient - 1,
        ;
    }
    assert(up == quotient);
    lemma_mod_bound((quotient + 1) as int, 0x1_0000_0000_0000_0000);
}

/// For every limit there is a number of ticks that fills it.
pub proof fn law_every_limit_is_filled(timeout: nat, tick: nat) -> (quotient: nat)
    requires
        tick > 0,
    ensures
        fill(quotient, tick, timeout),
    decreases timeout,
{
    if timeout == 0 {
        0
    } else if timeout <= tick {
        assert(1 * tick == tick && 0 * tick == 0) by (nonlinear_arith);
        1
    } else {
        let q = law_every_limit_is_filled((timeout - tick) as nat, tick);
        assert((q + 1) * tick == q * tick + tick) by (nonlinear_arith);
        if q > 0 {
            assert(q * tick == (q - 1) * tick + tick) by (nonlinear_arith);
        } else {
            assert(q * tick == 0) by (nonlinear_arith)
                requires
                    q == 0,
            ;
        }
        q + 1
    }
}

/// A limit is counted in the ticks of the configuration; without a limit nothing needs to be
/// counted.
pub proof fn law_limits_are_counted_in_ticks(config: TypeScriptConfig, timeout: Duration)
    ensures
        config.counts(None),
        config.counts(Some(timeout)) <==> config::duration_millis(config.epoch_tick) > 0,
        config.deadline(None) == 0xFFFF_FFFF_FFFF_FFFF,
        config.deadline(Some(timeout)) == config::deadline_ticks(
            Some(config::duration_millis(timeout)),
            config::duration_millis(config.epoch_tick),
        ),
{
}

/// A module that cannot be decoded is found out at once, and only such a module is called so.
pub proof fn law_errors_come_in_order(e: LoadError, wasm: Option<Seq<u8>>)
    requires
        e.comes_from(wasm),
    ensures
        e is Unpack ==> wasm is None,
        e is Compile || e is Serialize || e is Pack ==> wasm is Some,
{
}

/// A module from a cache is taken, and nothing is cached anew; where there is none, one is
/// compiled from what the compressed module decodes to, and its artifact is to be cached.
pub proof fn law_cache_is_used_or_filled(
    engine: wasmtime::Engine,
    cached: Option<wasmtime::Module>,
    compressed: Seq<u8>,
    r: Result<(TypeScript, Option<Vec<u8>>), LoadError>,
)
    requires
        config::cached_or_compiled(engine, cached, compressed, r),
    ensures
        cached matches Some(module) ==> (r matches Ok((ts, bytes)) && ts.module() == module
            && ts.engine() == engine && bytes is None),
        cached is None && r is Ok ==> {
            let (ts, bytes) = r->Ok_0;
            &&& ts.engine() == engine
            &&& engine::belongs_to(ts.module(), engine)
            &&& archive::zstd_decoded(compressed) is Some
            &&& engine::is_compiled(
                engine::engine_settings(engine),
                archive::zstd_decoded(compressed)->Some_0,
                ts.module(),
            )
            &&& bytes is Some
            &&& engine::is_artifact(
                engine::engine_settings(engine),
                archive::zstd_decoded(compressed)->Some_0,
                bytes->Some_0@,
            )
        },
        r matches Err(e) ==> (e is Unpack ==> archive::zstd_decoded(compressed) is None) && (
        e is Compile ==> archive::zstd_decoded(compressed) is Some),
{
}

} // verus!
