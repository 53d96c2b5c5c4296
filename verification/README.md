# localdesktop

The logic of Local Desktop, a Linux desktop on Android, with its contracts
proved by Verus.

- `src/proot/` prepares the guest: the stages of the setup and what each of them
  writes, key-value files, held packages, the machine id.
- `src/audio/` runs PipeWire next to the guest: the configuration, the
  environment, the start and the supervision of its processes, and the sink with
  its ring of samples.
- `src/desktop/` says what the app does as it comes and goes, and what the
  density of a screen means.
- `src/docs/` makes the offline manuals: markdown and Rust sources become Typst
  markup.
- `src/text.rs`, `lines.rs`, `numbers.rs`, `bytes.rs` and `paths.rs` hold what the
  others share.

`app/` is the ordinary Rust around the library: files, processes, the network,
Typst and the device. Functions whose names begin with `law_` state what holds
of several functions together.
