use std::collections::hash_map::DefaultHasher;
use std::hash::{Hash, Hasher};
use std::time::Duration;
use tsgo_wasm::archive::{is_compressed, pack, unpack};
use tsgo_wasm::config::{cross_target, LoadError};
use tsgo_wasm::runtime::{output, version_text, Ended, Run};
use tsgo_wasm::{
    build_cwasm, build_cwasm_zst, module_bytes, precompile, Output, TypeScript, TypeScriptConfig,
};

const EMPTY_MODULE: [u8; 8] = [0, b'a', b's', b'm', 1, 0, 0, 0];

fn compressed() -> Vec<u8> {
    zstd::encode_all(&EMPTY_MODULE[..], 3).unwrap()
}

fn compatibility(engine: &wasmtime::Engine) -> u64 {
    let mut hasher = DefaultHasher::new();
    engine.precompile_compatibility_hash().hash(&mut hasher);
    hasher.finish()
}

fn loaded(config: &TypeScriptConfig) -> TypeScript {
    config.load(&compressed()).unwrap()
}

#[test]
fn defaults() {
    let config = TypeScriptConfig::default();
    assert!(config.signals_based_traps);
    assert_eq!(config.memory_limit, None);
    assert_eq!(config.epoch_tick, Duration::from_millis(100));
    assert_eq!(config.pipe_capacity, 1 << 26);
    assert_eq!(format!("{:?}", config.clone()), format!("{config:?}"));
}

#[test]
fn deadlines_are_counted_in_ticks() {
    let config = TypeScriptConfig::default();
    let cases = [(0u64, 1u64), (1, 2), (100, 2), (101, 3), (30_000, 301)];
    for (millis, ticks) in cases {
        assert_eq!(config.epoch_deadline(Some(Duration::from_millis(millis))), ticks);
    }
    assert_eq!(config.epoch_deadline(Some(Duration::from_micros(100_999))), 2);
    assert_eq!(config.epoch_deadline(None), u64::MAX);
}

#[test]
fn deadlines_are_cut_to_their_width() {
    let config = TypeScriptConfig {
        epoch_tick: Duration::from_millis(1),
        ..Default::default()
    };
    assert_eq!(config.epoch_deadline(Some(Duration::from_millis(u64::MAX - 1))), u64::MAX);
    assert_eq!(config.epoch_deadline(Some(Duration::from_millis(u64::MAX))), 0);
}

#[test]
fn ticks_that_cannot_be_counted_are_found() {
    let config = TypeScriptConfig {
        epoch_tick: Duration::from_micros(999),
        ..Default::default()
    };
    assert_eq!(config.checked_deadline(Some(Duration::from_secs(1))), None);
    assert_eq!(config.checked_deadline(None), Some(u64::MAX));
    let ts = loaded(&config);
    assert!(ts.check((), "main.ts", Some(Duration::from_secs(1))).is_none());
    assert!(ts.check((), "main.ts", None).is_some());
}

#[test]
fn longer_limits_do_not_stop_sooner() {
    let config = TypeScriptConfig {
        epoch_tick: Duration::from_millis(7),
        ..Default::default()
    };
    let mut last = 0;
    for millis in 0..200u64 {
        let ticks = config.epoch_deadline(Some(Duration::from_millis(millis)));
        assert!(ticks >= last);
        assert!((ticks - 1) * 7 >= millis);
        assert!(ticks * 7 < millis + 14);
        last = ticks;
    }
}

#[test]
fn runs_get_the_program_name_and_the_limits() {
    let config = TypeScriptConfig {
        memory_limit: Some(8 * 1024 * 1024),
        pipe_capacity: 12,
        ..Default::default()
    };
    let ts = loaded(&config);
    let run = ts
        .run(&["--init", "-x"], vec![("/a", "/one"), ("/b", "/two")], None)
        .unwrap();
    assert_eq!(run.args, vec!["tsgo", "--init", "-x"]);
    assert_eq!(run.mounts, vec![("/a", "/one".to_string()), ("/b", "/two".to_string())]);
    assert_eq!(run.memory_limit, Some(8 * 1024 * 1024));
    assert_eq!(run.pipe_capacity, 12);
    assert_eq!(run.deadline, u64::MAX);
}

#[test]
fn checks_mount_the_project() {
    let ts = TypeScript::new(&compressed()).unwrap();
    let run = ts
        .check("dir", "src/main.ts", Some(Duration::from_secs(60)))
        .unwrap();
    assert_eq!(run.args, vec!["tsgo", "--noEmit", "/project/src/main.ts"]);
    assert_eq!(run.mounts, vec![("dir", "/project".to_string())]);
    assert_eq!(run.deadline, 601);
    assert_eq!(run.memory_limit, None);
    assert_eq!(run.pipe_capacity, 1 << 26);
}

#[test]
fn version_is_asked_for_without_limit() {
    let run: Run<()> = loaded(&TypeScriptConfig::default()).version();
    assert_eq!(run.args, vec!["tsgo", "--version"]);
    assert!(run.mounts.is_empty());
    assert_eq!(run.deadline, u64::MAX);
}

#[test]
fn version_text_has_no_white_space_around() {
    let said = |stdout: &str| {
        version_text(&Output {
            exit_code: 0,
            stdout: stdout.to_string(),
            stderr: String::new(),
        })
    };
    assert_eq!(said("Version 7.0.0-dev\n"), "Version 7.0.0-dev");
    assert_eq!(said("\r\n\t a b\u{3000}\u{a0}\u{2028}"), "a b");
    assert_eq!(said(" \u{85}\u{1680}\u{2000}\u{200a}\u{202f}\u{205f}\u{b}\u{c}"), "");
    assert_eq!(said("\u{200b}x\u{feff}"), "\u{200b}x\u{feff}");
    for c in '\0'..='\u{3100}' {
        let text = format!("{c}x{c}");
        assert_eq!(said(&text), text.trim(), "{c:?}");
    }
}

#[test]
fn ends_of_runs_become_output() {
    let done = output::<String>(Ended::Returned, b"out", b"err").unwrap();
    assert_eq!((done.exit_code, done.stdout.as_str(), done.stderr.as_str()), (0, "out", "err"));
    let done = output::<String>(Ended::Exited(2), &[b'a', 0xC3], "\u{e4}".as_bytes()).unwrap();
    assert_eq!(
        (done.exit_code, done.stdout.as_str(), done.stderr.as_str()),
        (2, "a\u{FFFD}", "\u{e4}")
    );
    let failed = output(Ended::Failed("trap".to_string()), b"out", b"err");
    assert_eq!(failed.unwrap_err(), "trap");
}

#[test]
fn module_is_decoded() {
    assert_eq!(module_bytes(&compressed()).unwrap(), EMPTY_MODULE);
    assert!(module_bytes(b"no module").is_err());
}

#[test]
fn packing_is_undone() {
    for level in [i32::MIN, -5, 0, 3, 19] {
        for bytes in [&b""[..], &b"cwasm"[..], &[0x28, 0xb5, 0x2f, 0xfd][..]] {
            let packed = pack(bytes, level).unwrap();
            assert!(is_compressed(&packed));
            assert_ne!(packed, bytes);
            assert_eq!(unpack(&packed).unwrap().bytes(), bytes);
        }
    }
}

#[test]
fn what_is_not_packed_stays() {
    for bytes in [&b""[..], &b"\x7fELF...."[..], &[0x28, 0xb5, 0x2f][..], &[0x28, 0xb5, 0x2f, 0xfc][..]] {
        assert!(!is_compressed(bytes));
        assert_eq!(unpack(bytes).unwrap().bytes(), bytes);
    }
    assert!(unpack(&[0x28, 0xb5, 0x2f, 0xfd, 0xff]).is_err());
}

#[test]
fn precompiled_module_fits_its_engine() {
    for signals_based_traps in [true, false] {
        let config = TypeScriptConfig {
            signals_based_traps,
            ..Default::default()
        };
        let cwasm = config.precompile(&compressed(), None).unwrap();
        assert_ne!(cwasm, EMPTY_MODULE);
        assert!(!is_compressed(&cwasm));
        let (engine, plain) = config.from_cwasm(&cwasm).unwrap();
        assert_eq!(plain.bytes(), cwasm.as_slice());
        assert!(wasmtime::Engine::detect_precompiled(plain.bytes()).is_some());
        let other = TypeScriptConfig {
            signals_based_traps: !signals_based_traps,
            ..config.clone()
        };
        let theirs = other.engine().unwrap();
        let mine = config.engine().unwrap();
        assert_eq!(compatibility(&mine), compatibility(&engine));
        assert_ne!(compatibility(&mine), compatibility(&theirs));
    }
}

#[test]
fn raw_and_packed_artifacts_are_taken_alike() {
    let config = TypeScriptConfig::default();
    let raw = config.precompile(&compressed(), None).unwrap();
    for level in [-1, 0, 3, 12] {
        let packed = pack(&raw, level).unwrap();
        let (_, plain) = config.from_cwasm(&packed).unwrap();
        assert_eq!(plain.bytes(), raw.as_slice());
    }
    let (_, plain) = config.from_cwasm(&raw).unwrap();
    assert_eq!(plain.bytes(), raw.as_slice());
}

#[test]
fn default_configuration_has_shorthands() {
    let bytes = precompile(&compressed(), None).unwrap();
    let (_, plain) = TypeScript::from_cwasm(&bytes).unwrap();
    assert_eq!(plain.bytes(), bytes.as_slice());
    let ts = TypeScript::new(&compressed()).unwrap();
    assert!(ts.configuration().signals_based_traps);
    assert_eq!(ts.parts().1.exports().count(), 0);
}

#[test]
fn module_belongs_to_the_engine_beside_it() {
    let ts = TypeScript::new(&compressed()).unwrap();
    let (engine, module) = ts.parts();
    assert!(wasmtime::Engine::same(engine, module.engine()));
    let config = TypeScriptConfig::default();
    let (ts, _) = config
        .load_cached(config.engine().unwrap(), None, &compressed())
        .unwrap();
    let (engine, module) = ts.parts();
    assert!(wasmtime::Engine::same(engine, module.engine()));
    assert!(!wasmtime::Engine::same(engine, &config.engine().unwrap()));
}

#[test]
fn unknown_targets_are_refused() {
    let result = precompile(&compressed(), Some("no-such-machine"));
    assert!(matches!(result, Err(LoadError::Target(_))));
    let result = build_cwasm(&compressed(), "no-such-machine", "x86_64-unknown-linux-gnu");
    assert!(matches!(result, Err(LoadError::Target(_))));
}

#[test]
fn modules_that_are_none_are_refused() {
    let config = TypeScriptConfig::default();
    assert!(matches!(config.load(b"plain"), Err(LoadError::Unpack(_))));
    let text = zstd::encode_all(&b"no wasm"[..], 3).unwrap();
    assert!(matches!(config.load(&text), Err(LoadError::Compile(_))));
    assert!(matches!(config.precompile(&text, None), Err(LoadError::Compile(_))));
    assert!(matches!(
        config.from_cwasm(&[0x28, 0xb5, 0x2f, 0xfd]).map(|_| ()),
        Err(LoadError::Unpack(_))
    ));
}

#[test]
fn artifacts_are_named_and_built_for_the_target() {
    let here = "x86_64-unknown-linux-gnu";
    let raw = build_cwasm(&compressed(), here, here).unwrap();
    assert_eq!(raw.file_name, "tsgo.cwasm");
    assert!(!is_compressed(&raw.bytes));
    let packed = build_cwasm_zst(&compressed(), here, here, 3).unwrap();
    assert_eq!(packed.file_name, "tsgo.cwasm.zst");
    assert!(is_compressed(&packed.bytes));
    let (_, plain) = TypeScript::from_cwasm(&packed.bytes).unwrap();
    assert!(wasmtime::Engine::detect_precompiled(plain.bytes()).is_some());
}

#[test]
fn target_counts_only_where_it_is_not_the_host() {
    assert_eq!(cross_target("a", "a"), None);
    assert_eq!(cross_target("a", "b"), Some("a"));
}

#[test]
fn cached_module_is_taken() {
    let config = TypeScriptConfig::default();
    let engine = config.engine().unwrap();
    let (ts, bytes) = config.load_cached(engine, None, &compressed()).unwrap();
    let bytes = bytes.unwrap();
    assert!(wasmtime::Engine::detect_precompiled(&bytes).is_some());
    assert!(!is_compressed(&bytes));
    let module = ts.parts().1.clone();
    let engine = ts.parts().0.clone();
    let (ts, bytes) = TypeScript::with_cache(engine, Some(module), b"not looked at").unwrap();
    assert!(bytes.is_none());
    assert_eq!(ts.parts().1.imports().count(), 0);
}
