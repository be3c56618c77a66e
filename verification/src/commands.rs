//! What the subcommands run: the cargo command line of a build, the
//! compiler flags, the boot configuration of a disc and the plan of an image
//! build. Spawning and file writing are left to the caller.

use vstd::prelude::*;
use vstd::utf8::is_ascii_chars;
use crate::args::{opt_view, BuildArgs, BuildArgsView};
use crate::process_error::ProcessError;
use crate::text::{
    ascii_uppercase, int_decimal, join_with, lemma_split_join, push_i64_decimal, split_at_char,
    split_on, to_uppercase, unicode_uppercase,
};

verus! {

/// A program to spawn, its arguments in order, and the environment
/// variables to set for it, in the order they are set.
pub struct Invocation {
    pub program: String,
    pub args: Vec<String>,
    pub envs: Vec<(String, String)>,
}

/// The mathematical content of an [`Invocation`].
pub struct InvocationView {
    pub program: Seq<char>,
    pub args: Seq<Seq<char>>,
    pub envs: Seq<(Seq<char>, Seq<char>)>,
}

impl View for Invocation {
    type V = InvocationView;

    open spec fn view(&self) -> InvocationView {
        InvocationView {
            program: self.program@,
            args: self.args.deep_view(),
            envs: self.envs.deep_view(),
        }
    }
}

/// The cargo flags of a build: each extra flag gets `--` in front and is
/// then cut at every space into separate arguments; `--release` comes last.
pub open spec fn cargo_args_spec(extra: Seq<Seq<char>>) -> Seq<Seq<char>> {
    extra.map_values(|a: Seq<char>| split_on("--"@ + a, ' ')).flatten().push("--release"@)
}

/// The arguments cargo is given for the extra flags of a build: each one
/// with `--` in front, cut at spaces, and `--release` last.
pub fn build_cargo_args(cargo_args: &Vec<String>) -> (r: Vec<String>)
    ensures
        r.deep_view() == cargo_args_spec(cargo_args.deep_view()),
{
    let ghost extra = cargo_args.deep_view();
    let ghost f = |a: Seq<char>| split_on("--"@ + a, ' ');
    let mut r: Vec<String> = Vec::new();
    let mut i: usize = 0;
    while i < cargo_args.len()
        invariant
            i <= cargo_args.len(),
            extra == cargo_args.deep_view(),
            f == (|a: Seq<char>| split_on("--"@ + a, ' ')),
            r.deep_view() == extra.take(i as int).map_values(f).flatten_alt(),
        decreases cargo_args.len() - i,
    {
        let mut flag = "--".to_owned();
        flag.append(cargo_args[i].as_str());
        let mut pieces = split_at_char(flag.as_str(), ' ');
        let ghost before = r.deep_view();
        let ghost added = pieces.deep_view();
        r.append(&mut pieces);
        proof {
            assert(r.deep_view() =~= before + added);
            assert(extra.take(i + 1).map_values(f) =~= extra.take(i as int).map_values(f).push(f(extra[i as int])));
            assert(extra.take(i + 1).map_values(f).drop_last() =~= extra.take(i as int).map_values(f));
        }
        i = i + 1;
    }
    r.push("--release".to_owned());
    proof {
        assert(extra.take(i as int) =~= extra);
        extra.map_values(f).lemma_flatten_and_flatten_alt_are_equivalent();
        assert(r.deep_view() =~= cargo_args_spec(extra));
    }
    r
}

/// Text that is present only when `cond` holds.
pub open spec fn when(cond: bool, s: Seq<char>) -> Seq<char> {
    if cond { s } else { Seq::empty() }
}

/// The compiler flags of a build. They start from the flags found in the
/// environment (`-Ccodegen-units=1` when there are none), then name the
/// linker script (`psexe.ld` unless one is given) and the output format (an
/// ELF for `debug` or `elf`, raw binary otherwise), then add debug info,
/// link-time optimisation and size optimisation when asked.
pub open spec fn rustflags_spec(a: BuildArgsView, env_rustflags: Option<Seq<char>>) -> Seq<char> {
    let base = match env_rustflags {
        Some(e) => e,
        None => "-Ccodegen-units=1"@,
    };
    let script = match a.link {
        Some(l) => l,
        None => "psexe.ld"@,
    };
    let format = if a.debug || a.elf { "elf32-tradlittlemips"@ } else { "binary"@ };
    base + " -Clink-arg=-T"@ + script + " -Clink-arg=--oformat="@ + format
        + when(a.debug, " -g"@)
        + when(a.lto, " -Clto=fat -Cembed-bitcode=yes"@)
        + when(a.small, " -Copt-level=s"@)
}

/// The compiler flags of a build, given the flags that the environment
/// holds in `RUSTFLAGS`, if any.
pub fn build_rustflags(build_args: &BuildArgs, env_rustflags: Option<String>) -> (r: String)
    ensures
        r@ == rustflags_spec(build_args@, opt_view(env_rustflags)),
{
    let mut rustflags = match env_rustflags {
        Some(e) => e,
        None => "-Ccodegen-units=1".to_owned(),
    };
    rustflags.append(" -Clink-arg=-T");
    match &build_args.link {
        Some(l) => rustflags.append(l.as_str()),
        None => rustflags.append("psexe.ld"),
    }
    rustflags.append(" -Clink-arg=--oformat=");
    if build_args.debug || build_args.elf {
        rustflags.append("elf32-tradlittlemips");
    } else {
        rustflags.append("binary");
    }
    let ghost before_options = rustflags@;
    if build_args.debug {
        rustflags.append(" -g");
    }
    let ghost after_debug = rustflags@;
    assert(after_debug =~= before_options + when(build_args.debug, " -g"@));
    if build_args.lto {
        rustflags.append(" -Clto=fat -Cembed-bitcode=yes");
    }
    let ghost after_lto = rustflags@;
    assert(after_lto =~= after_debug + when(build_args.lto, " -Clto=fat -Cembed-bitcode=yes"@));
    if build_args.small {
        rustflags.append(" -Copt-level=s");
    }
    assert(rustflags@ =~= after_lto + when(build_args.small, " -Copt-level=s"@));
    rustflags
}

/// The toolchain argument: `+` and the toolchain's name, `+nightly` when
/// none is given.
pub open spec fn toolchain_arg(toolchain: Option<Seq<char>>) -> Seq<char> {
    match toolchain {
        Some(t) => "+"@ + t,
        None => "+nightly"@,
    }
}

/// `--features` and the features, when features are given.
pub open spec fn features_args(features: Option<Seq<char>>) -> Seq<Seq<char>> {
    match features {
        Some(f) => seq!["--features"@, f],
        None => Seq::empty(),
    }
}

/// An environment variable holding a number in decimal, when there is one.
pub open spec fn number_env(name: Seq<char>, value: Option<u32>) -> Seq<(Seq<char>, Seq<char>)> {
    match value {
        Some(v) => seq![(name, int_decimal(v as int))],
        None => Seq::empty(),
    }
}

/// The cargo command of a build: the toolchain, the cargo subcommand, the
/// flags that build `core` and `alloc` for the `mipsel-sony-psx` target, the
/// cargo flags of the build and the features; with the compiler flags in
/// `RUSTFLAGS` and the load offset and stack pointer, when given, in
/// `PSX_LOAD_OFFSET` and `PSX_STACK_POINTER`.
pub open spec fn cargo_command_spec(
    a: BuildArgsView,
    subcmd: Seq<char>,
    env_rustflags: Option<Seq<char>>,
) -> InvocationView {
    InvocationView {
        program: "cargo"@,
        args: seq![
            toolchain_arg(a.toolchain),
            subcmd,
            "-Zbuild-std=core,alloc"@,
            "-Zbuild-std-features=compiler-builtins-mem"@,
            "--target"@,
            "mipsel-sony-psx"@,
        ] + cargo_args_spec(a.cargo_args) + features_args(a.features),
        envs: seq![("RUSTFLAGS"@, rustflags_spec(a, env_rustflags))]
            + number_env("PSX_LOAD_OFFSET"@, a.load_offset)
            + number_env("PSX_STACK_POINTER"@, a.stack_pointer),
    }
}

fn push_number_env(envs: &mut Vec<(String, String)>, name: &str, value: Option<u32>)
    ensures
        final(envs).deep_view() == old(envs).deep_view() + number_env(name@, value),
{
    match value {
        Some(v) => {
            let mut text = String::new();
            push_i64_decimal(&mut text, v as i64);
            let ghost before = envs.deep_view();
            envs.push((name.to_owned(), text));
            assert(envs.deep_view() =~= before + number_env(name@, value));
        },
        None => {
            assert(envs.deep_view() =~= old(envs).deep_view() + number_env(name@, value));
        },
    }
}

/// The cargo command that builds (or checks, as `subcmd` says) for the PSX.
/// The load offset and the stack pointer must be multiples of four bytes.
pub fn build_cargo_command(build_args: &BuildArgs, subcmd: &str, env_rustflags: Option<String>) -> (r: Invocation)
    requires
        build_args.load_offset matches Some(o) ==> o % 4 == 0,
        build_args.stack_pointer matches Some(sp) ==> sp % 4 == 0,
    ensures
        r@ == cargo_command_spec(build_args@, subcmd@, opt_view(env_rustflags)),
{
    let mut cargo_args = build_cargo_args(&build_args.cargo_args);
    let rustflags = build_rustflags(build_args, env_rustflags);
    let toolchain = match &build_args.toolchain {
        Some(name) => {
            let mut t = "+".to_owned();
            t.append(name.as_str());
            t
        },
        None => "+nightly".to_owned(),
    };
    let mut args: Vec<String> = Vec::new();
    args.push(toolchain);
    args.push(subcmd.to_owned());
    args.push("-Zbuild-std=core,alloc".to_owned());
    args.push("-Zbuild-std-features=compiler-builtins-mem".to_owned());
    args.push("--target".to_owned());
    args.push("mipsel-sony-psx".to_owned());
    let ghost fixed = args.deep_view();
    let ghost flags = cargo_args.deep_view();
    args.append(&mut cargo_args);
    assert(args.deep_view() =~= fixed + flags);
    let ghost before_features = args.deep_view();
    match &build_args.features {
        Some(f) => {
            args.push("--features".to_owned());
            args.push(f.clone());
        },
        None => {},
    }
    assert(args.deep_view() =~= before_features + features_args(opt_view(build_args.features)));
    let mut envs: Vec<(String, String)> = Vec::new();
    envs.push(("RUSTFLAGS".to_owned(), rustflags));
    push_number_env(&mut envs, "PSX_LOAD_OFFSET", build_args.load_offset);
    push_number_env(&mut envs, "PSX_STACK_POINTER", build_args.stack_pointer);
    let r = Invocation { program: "cargo".to_owned(), args, envs };
    assert(r@.args =~= cargo_command_spec(build_args@, subcmd@, opt_view(env_rustflags)).args);
    assert(r@.envs =~= cargo_command_spec(build_args@, subcmd@, opt_view(env_rustflags)).envs);
    r
}

/// The command that removes the build artifacts of one package.
pub fn clean_invocation(package: &str) -> (r: Invocation)
    ensures
        r@ == (InvocationView {
            program: "cargo"@,
            args: seq!["clean"@, "-p"@, package@],
            envs: Seq::empty(),
        }),
{
    let mut args: Vec<String> = Vec::new();
    args.push("clean".to_owned());
    args.push("-p".to_owned());
    args.push(package.to_owned());
    let envs: Vec<(String, String)> = Vec::new();
    let r = Invocation { program: "cargo".to_owned(), args, envs };
    assert(r@.args =~= seq!["clean"@, "-p"@, package@]);
    assert(r@.envs =~= Seq::<(Seq<char>, Seq<char>)>::empty());
    r
}

/// The result of running `invocation`: success when it exited
/// successfully; otherwise a failure that names its program, its arguments
/// run together without separator (none when it had no arguments) and the
/// code it exited with. A failed run must have an exit code.
pub fn process_outcome(invocation: &Invocation, success: bool, exit_code: Option<i32>) -> (r: Result<(), ProcessError>)
    requires
        success || exit_code is Some,
    ensures
        success ==> r is Ok,
        !success ==> (r matches Err(e) && e.cmd_view() == invocation@.program && e.code() == exit_code->0
            && e.args_view() == (if invocation@.args.len() > 0 {
                Some(invocation@.args.flatten())
            } else {
                None
            })),
{
    if success {
        return Ok(());
    }
    let code = match exit_code {
        Some(c) => c,
        None => 0,
    };
    let args = if invocation.args.len() > 0 {
        let mut acc = String::new();
        let mut i: usize = 0;
        let ghost all = invocation.args.deep_view();
        while i < invocation.args.len()
            invariant
                i <= invocation.args.len(),
                all == invocation.args.deep_view(),
                acc@ == all.take(i as int).flatten_alt(),
            decreases invocation.args.len() - i,
        {
            acc.append(invocation.args[i].as_str());
            proof {
                assert(all.take(i + 1).drop_last() =~= all.take(i as int));
            }
            i = i + 1;
        }
        proof {
            assert(all.take(i as int) =~= all);
            all.lemma_flatten_and_flatten_alt_are_equivalent();
        }
        Some(acc)
    } else {
        None
    };
    Err(ProcessError::new(invocation.program.clone(), args, code))
}

/// The boot configuration of a disc: boot the executable named after the
/// application (in uppercase) from the CD, with the kernel's task, event
/// and stack settings.
pub open spec fn system_cnf_spec(app_id: Seq<char>) -> Seq<char> {
    "BOOT=cdrom:\\"@ + unicode_uppercase(app_id) + ".EXE;1\r\nTCB=4\r\nEVENT=16\r\nSTACK=801FFFF0\r\n"@
}

/// The text of `SYSTEM.CNF` for the application `app_id`. For an ASCII
/// name it boots `<APPID>.EXE` with the name in ASCII uppercase, which is
/// the executable's name in the image description.
pub fn system_cnf(app_id: &str) -> (r: String)
    ensures
        r@ == system_cnf_spec(app_id@),
        is_ascii_chars(app_id@) ==> r@ == "BOOT=cdrom:\\"@ + ascii_uppercase(app_id@)
            + ".EXE;1\r\nTCB=4\r\nEVENT=16\r\nSTACK=801FFFF0\r\n"@,
{
    let mut s = "BOOT=cdrom:\\".to_owned();
    let upper = to_uppercase(app_id);
    s.append(upper.as_str());
    s.append(".EXE;1\r\nTCB=4\r\nEVENT=16\r\nSTACK=801FFFF0\r\n");
    s
}

/// What an image build reads of the project's metadata.
pub struct ProjectMetadata {
    /// Where cargo puts build outputs.
    pub target_directory: String,
    /// The names of the workspace's packages, in cargo's order.
    pub package_names: Vec<String>,
    /// The name of the package in the current directory, when there is one.
    pub root_package_name: Option<String>,
}

/// How to build the CD image.
pub struct IsoPlan {
    /// The executable to put on the disc.
    pub target: String,
    /// The name of the image.
    pub image_name: String,
    /// The name of the executable on the disc.
    pub app_id: String,
    /// The image description to hand to `mkpsxiso`.
    pub xml_path: String,
    /// The directory whose files go on the disc, when the description is to
    /// be generated (it is not when one is given).
    pub assets_dir: Option<String>,
    /// Whether that directory is the default one, to be created first.
    pub create_assets_dir: bool,
}

/// The plan of an image build, from the project metadata and the build
/// options. The executable is the first package's, under the target
/// directory; the image is named after the root package; the application
/// is named by `--appid`, else after the image. A given description is
/// used as it is; otherwise one named after the image is generated from
/// the assets directory (`--path`, else `assets`, which is then created).
pub fn iso_plan(metadata: &ProjectMetadata, build_args: &BuildArgs) -> (r: IsoPlan)
    requires
        metadata.package_names.len() > 0,
        metadata.root_package_name is Some,
    ensures
        r.target@ == metadata.target_directory@ + "/mipsel-sony-psx/release/"@
            + metadata.package_names[0]@ + ".exe"@,
        r.image_name@ == metadata.root_package_name->0@,
        r.app_id@ == match build_args.appid {
            Some(a) => a@,
            None => metadata.root_package_name->0@,
        },
        r.xml_path@ == match build_args.xml {
            Some(x) => x@,
            None => metadata.root_package_name->0@ + ".xml"@,
        },
        opt_view(r.assets_dir) == match build_args.xml {
            Some(_) => None,
            None => Some(match build_args.path {
                Some(p) => p@,
                None => "assets"@,
            }),
        },
        r.create_assets_dir == (build_args.xml is None && build_args.path is None),
{
    let mut target = metadata.target_directory.clone();
    target.append("/mipsel-sony-psx/release/");
    target.append(metadata.package_names[0].as_str());
    target.append(".exe");
    let image_name = match &metadata.root_package_name {
        Some(n) => n.clone(),
        None => String::new(),
    };
    let app_id = match &build_args.appid {
        Some(a) => a.clone(),
        None => image_name.clone(),
    };
    let (xml_path, assets_dir, create_assets_dir) = match &build_args.xml {
        Some(x) => (x.clone(), None, false),
        None => {
            let (dir, create) = match &build_args.path {
                Some(p) => (p.clone(), false),
                None => ("assets".to_owned(), true),
            };
            let mut file_name = image_name.clone();
            file_name.append(".xml");
            (file_name, Some(dir), create)
        },
    };
    IsoPlan { target, image_name, app_id, xml_path, assets_dir, create_assets_dir }
}

/// The command that packs the image described by `xml_path`.
pub fn mkpsxiso_invocation(xml_path: &str) -> (r: Invocation)
    ensures
        r@ == (InvocationView {
            program: "mkpsxiso"@,
            args: seq![xml_path@],
            envs: Seq::empty(),
        }),
{
    let mut args: Vec<String> = Vec::new();
    args.push(xml_path.to_owned());
    let envs: Vec<(String, String)> = Vec::new();
    let r = Invocation { program: "mkpsxiso".to_owned(), args, envs };
    assert(r@.args =~= seq![xml_path@]);
    assert(r@.envs =~= Seq::<(Seq<char>, Seq<char>)>::empty());
    r
}

/// Builds are always in release mode: `--release` is the last cargo flag
/// whatever extra flags are given.
pub proof fn lemma_always_release(extra: Seq<Seq<char>>)
    ensures
        cargo_args_spec(extra).last() == "--release"@,
        cargo_args_spec(extra).len() >= 1,
{
}

/// Without optimisation or debug options, the flags are the base flags
/// (those of the environment, else `-Ccodegen-units=1`), the linker script
/// (the one given, else `psexe.ld`) and the output format: an ELF when
/// `elf` is set, raw binary otherwise.
pub proof fn lemma_rustflags_without_options(a: BuildArgsView, env_rustflags: Option<Seq<char>>)
    requires
        !a.debug,
        !a.lto,
        !a.small,
    ensures
        rustflags_spec(a, env_rustflags) == (match env_rustflags {
            Some(e) => e,
            None => "-Ccodegen-units=1"@,
        }) + " -Clink-arg=-T"@ + (match a.link {
            Some(l) => l,
            None => "psexe.ld"@,
        }) + " -Clink-arg=--oformat="@ + (if a.elf { "elf32-tradlittlemips"@ } else { "binary"@ }),
{
    let base = match env_rustflags {
        Some(e) => e,
        None => "-Ccodegen-units=1"@,
    };
    let script = match a.link {
        Some(l) => l,
        None => "psexe.ld"@,
    };
    let format = if a.elf { "elf32-tradlittlemips"@ } else { "binary"@ };
    assert(rustflags_spec(a, env_rustflags) =~= base + " -Clink-arg=-T"@ + script + " -Clink-arg=--oformat="@ + format);
}

/// `--debug` builds what `--elf` builds, with debug information added:
/// the flags with `debug` set are the flags with `elf` set instead followed
/// by ` -g` (when no optimisation is asked for).
pub proof fn lemma_debug_is_elf_with_debug_info(a: BuildArgsView, env_rustflags: Option<Seq<char>>)
    requires
        !a.lto,
        !a.small,
    ensures
        rustflags_spec(BuildArgsView { debug: true, ..a }, env_rustflags)
            == rustflags_spec(BuildArgsView { debug: false, elf: true, ..a }, env_rustflags) + " -g"@,
{
    assert(rustflags_spec(BuildArgsView { debug: true, ..a }, env_rustflags)
        =~= rustflags_spec(BuildArgsView { debug: false, elf: true, ..a }, env_rustflags) + " -g"@);
}

/// `--small` adds size optimisation at the very end, whatever the other
/// options: the flags with it are the flags without it followed by
/// ` -Copt-level=s`.
pub proof fn lemma_small_adds_size_optimisation(a: BuildArgsView, env_rustflags: Option<Seq<char>>)
    ensures
        rustflags_spec(BuildArgsView { small: true, ..a }, env_rustflags)
            == rustflags_spec(BuildArgsView { small: false, ..a }, env_rustflags) + " -Copt-level=s"@,
{
    assert(rustflags_spec(BuildArgsView { small: true, ..a }, env_rustflags)
        =~= rustflags_spec(BuildArgsView { small: false, ..a }, env_rustflags) + " -Copt-level=s"@);
}

/// `--lto` adds link-time optimisation after the other flags (before size
/// optimisation, when that is asked for too).
pub proof fn lemma_lto_adds_link_time_optimisation(a: BuildArgsView, env_rustflags: Option<Seq<char>>)
    requires
        !a.small,
    ensures
        rustflags_spec(BuildArgsView { lto: true, ..a }, env_rustflags)
            == rustflags_spec(BuildArgsView { lto: false, ..a }, env_rustflags) + " -Clto=fat -Cembed-bitcode=yes"@,
{
    assert(rustflags_spec(BuildArgsView { lto: true, ..a }, env_rustflags)
        =~= rustflags_spec(BuildArgsView { lto: false, ..a }, env_rustflags) + " -Clto=fat -Cembed-bitcode=yes"@);
}

/// The arguments of the cargo command: the toolchain (`+nightly` unless one
/// is given), the cargo subcommand, the four arguments that build `core` and
/// `alloc` for the PSX target, then the cargo flags of the build, and
/// `--features` with the features last, exactly when features are given.
pub proof fn lemma_cargo_command_arguments(a: BuildArgsView, subcmd: Seq<char>, env_rustflags: Option<Seq<char>>)
    ensures
        ({
            let args = cargo_command_spec(a, subcmd, env_rustflags).args;
            let flags = cargo_args_spec(a.cargo_args);
            &&& args[0] == (match a.toolchain {
                Some(t) => "+"@ + t,
                None => "+nightly"@,
            })
            &&& args[1] == subcmd
            &&& args.subrange(2, 6) == seq![
                "-Zbuild-std=core,alloc"@,
                "-Zbuild-std-features=compiler-builtins-mem"@,
                "--target"@,
                "mipsel-sony-psx"@,
            ]
            &&& args.subrange(6, 6 + flags.len() as int) == flags
            &&& (a.features matches Some(f) ==> args.len() == 8 + flags.len()
                && args[6 + flags.len() as int] == "--features"@ && args[7 + flags.len() as int] == f)
            &&& (a.features is None ==> args.len() == 6 + flags.len() as int)
        }),
{
    let args = cargo_command_spec(a, subcmd, env_rustflags).args;
    let flags = cargo_args_spec(a.cargo_args);
    assert(args.subrange(2, 6) =~= seq![
        "-Zbuild-std=core,alloc"@,
        "-Zbuild-std-features=compiler-builtins-mem"@,
        "--target"@,
        "mipsel-sony-psx"@,
    ]);
    assert(args.subrange(6, 6 + flags.len() as int) =~= flags);
}

/// Each extra cargo flag is given to cargo as `--` and the flag, cut at
/// its spaces: its arguments hold no space and, joined with spaces, give
/// `--` and the flag back. The flags of two lists of extra flags are those
/// of the first list followed by those of the second (before `--release`).
pub proof fn lemma_cargo_flag_arguments(flag: Seq<char>, first: Seq<Seq<char>>, second: Seq<Seq<char>>)
    ensures
        join_with(cargo_args_spec(seq![flag]).drop_last(), ' ') == "--"@ + flag,
        forall|i: int| 0 <= i < cargo_args_spec(seq![flag]).len() - 1
            ==> !(#[trigger] cargo_args_spec(seq![flag])[i]).contains(' '),
        cargo_args_spec(first + second).drop_last()
            == cargo_args_spec(first).drop_last() + cargo_args_spec(second).drop_last(),
{
    let f = |a: Seq<char>| split_on("--"@ + a, ' ');
    lemma_split_join("--"@ + flag, ' ');
    let pieces = split_on("--"@ + flag, ' ');
    assert(seq![flag].map_values(f) =~= seq![pieces]);
    seq![pieces].lemma_flatten_one_element();
    assert(cargo_args_spec(seq![flag]).drop_last() =~= pieces);
    assert forall|i: int| 0 <= i < cargo_args_spec(seq![flag]).len() - 1
        implies !(#[trigger] cargo_args_spec(seq![flag])[i]).contains(' ') by {
        assert(cargo_args_spec(seq![flag])[i] == pieces[i]);
    }
    assert((first + second).map_values(f) =~= first.map_values(f) + second.map_values(f));
    lemma_flatten_concat(first.map_values(f), second.map_values(f));
    assert(cargo_args_spec(first + second).drop_last() =~= (first + second).map_values(f).flatten());
    assert(cargo_args_spec(first).drop_last() =~= first.map_values(f).flatten());
    assert(cargo_args_spec(second).drop_last() =~= second.map_values(f).flatten());
}

proof fn lemma_flatten_concat(x: Seq<Seq<Seq<char>>>, y: Seq<Seq<Seq<char>>>)
    ensures
        (x + y).flatten() == x.flatten() + y.flatten(),
    decreases x.len(),
{
    if x.len() == 0 {
        assert(x + y =~= y);
        assert(x.flatten() + y.flatten() =~= y.flatten());
    } else {
        assert((x + y).drop_first() =~= x.drop_first() + y);
        lemma_flatten_concat(x.drop_first(), y);
        assert((x + y).flatten() =~= x.flatten() + y.flatten());
    }
}

/// The load offset and the stack pointer reach the build each on its own:
/// `PSX_LOAD_OFFSET` holds the load offset in decimal exactly when one is
/// given, and `PSX_STACK_POINTER` the stack pointer exactly when one is
/// given, whatever the other is.
pub proof fn lemma_addresses_in_environment(a: BuildArgsView, subcmd: Seq<char>, env_rustflags: Option<Seq<char>>)
    ensures
        a.load_offset matches Some(o) ==> cargo_command_spec(a, subcmd, env_rustflags).envs.contains(
            ("PSX_LOAD_OFFSET"@, int_decimal(o as int)),
        ),
        a.stack_pointer matches Some(sp) ==> cargo_command_spec(a, subcmd, env_rustflags).envs.contains(
            ("PSX_STACK_POINTER"@, int_decimal(sp as int)),
        ),
        a.load_offset is None ==> forall|i: int|
            0 <= i < cargo_command_spec(a, subcmd, env_rustflags).envs.len()
                ==> (#[trigger] cargo_command_spec(a, subcmd, env_rustflags).envs[i]).0 != "PSX_LOAD_OFFSET"@,
        a.stack_pointer is None ==> forall|i: int|
            0 <= i < cargo_command_spec(a, subcmd, env_rustflags).envs.len()
                ==> (#[trigger] cargo_command_spec(a, subcmd, env_rustflags).envs[i]).0 != "PSX_STACK_POINTER"@,
{
    reveal_strlit("RUSTFLAGS");
    reveal_strlit("PSX_LOAD_OFFSET");
    reveal_strlit("PSX_STACK_POINTER");
    let envs = cargo_command_spec(a, subcmd, env_rustflags).envs;
    let first = seq![("RUSTFLAGS"@, rustflags_spec(a, env_rustflags))];
    let lo = number_env("PSX_LOAD_OFFSET"@, a.load_offset);
    let sp = number_env("PSX_STACK_POINTER"@, a.stack_pointer);
    assert(envs == first + lo + sp);
    if let Some(o) = a.load_offset {
        assert(envs[1] == ("PSX_LOAD_OFFSET"@, int_decimal(o as int)));
    }
    if let Some(p) = a.stack_pointer {
        assert(envs[envs.len() - 1] == ("PSX_STACK_POINTER"@, int_decimal(p as int)));
    }
    assert("RUSTFLAGS"@.len() == 9);
    assert("PSX_LOAD_OFFSET"@.len() == 15);
    assert("PSX_STACK_POINTER"@.len() == 17);
    assert("RUSTFLAGS"@ != "PSX_LOAD_OFFSET"@);
    assert("RUSTFLAGS"@ != "PSX_STACK_POINTER"@);
    assert("PSX_LOAD_OFFSET"@ != "PSX_STACK_POINTER"@);
    assert forall|i: int| 0 <= i < envs.len() implies
        (a.load_offset is None ==> (#[trigger] envs[i]).0 != "PSX_LOAD_OFFSET"@)
        && (a.stack_pointer is None ==> envs[i].0 != "PSX_STACK_POINTER"@) by {
        if i == 0 {
            assert(envs[i] == first[0]);
        } else if i < 1 + lo.len() {
            assert(envs[i] == lo[i - 1]);
        } else {
            assert(envs[i] == sp[i - 1 - lo.len()]);
        }
    }
}

} // verus!
