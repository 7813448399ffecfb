# tsgo-wasm

[tsgo](https://github.com/microsoft/typescript-go), the TypeScript compiler, as a WASI
module that runs inside a Rust process.

The library under `src/` is verified with [Verus](https://github.com/verus-lang/verus). It
holds what can be decided without touching the outside world:

- `config`, `engine`, `archive`: how the module is configured, compiled to artifacts,
  compressed and loaded. The settings of an engine, and of an artifact, follow from a
  `TypeScriptConfig` alone: an artifact made for the host and an engine that
  `TypeScriptConfig::engine`, `load` or `from_cwasm` makes have the same settings if they
  come from the same configuration. `load_cached` takes the engine that it is given.
- `runtime`: what a run of the module is given, and what comes of it.
- `frame`, `frame_laws`: the messages of a session on the wire.
- `files`, `callback`: the files of a session, and what the guest may see of them.
- `session`, `session_laws`, `series`, `pipe`, `error`: a session as a state machine, the
  series of requests that it makes, and its pipes.
- `diagnostic`: where diagnostics point in the sources.
- `distribution`: where the module comes from when it is built in.
- `json`, `text`: values of `serde_json` and text, as the contracts see them.

`app/` is ordinary Rust around the library: files, environment, threads, the engine's
streams, and the download of the module.

```rust
use std::time::Duration;

let ts = TypeScript::new()?;
let output = ts.check("./project-dir", "main.ts", Some(Duration::from_secs(30)))?;
println!("exit={} {}", output.exit_code, output.stdout);

let mut session = ts.api_session(&[("main.ts", "const n: number = 'x';")], Duration::from_secs(60))?;
for diagnostic in session.diagnostics()? {
    println!("{:?}: {}", diagnostic.range, diagnostic.text);
}
```

The compressed module itself is not part of the repository. A build script that calls
`resolve_module` puts it into its output directory.
