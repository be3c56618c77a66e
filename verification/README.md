# cargo_psx

The build logic of `cargo psx`, a cargo subcommand that compiles Rust crates
for the original PlayStation and packs them into CD images with `mkpsxiso`,
written in Verus with its behaviour stated in contracts and proved.

- `src/args.rs` — the subcommands and build options.
- `src/commands.rs` — the cargo command line and compiler flags of a build,
  the commands that clean and pack, the outcome of a spawned command, the
  boot configuration of a disc and the plan of an image build.
- `src/assets.rs` — the files that go on a disc and the order they are
  listed in.
- `src/xml.rs` — the image description handed to `mkpsxiso`.
- `src/xml_support.rs` — the `xml-builder` calls, with the contracts this
  library relies on.
- `src/text.rs` — decimal rendering, splitting at a separator, case mapping.
- `src/process_error.rs` — the error of a failed command.
- `app/` — the command-line program: argument parsing, project metadata,
  spawning processes, walking the assets directory, writing files.
