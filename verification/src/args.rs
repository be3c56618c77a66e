//! The command line: the subcommands and the options of a build.

use vstd::prelude::*;

verus! {

/// A string option seen as characters.
pub open spec fn opt_view(o: Option<String>) -> Option<Seq<char>> {
    match o {
        Some(s) => Some(s@),
        None => None,
    }
}

/// The options of `build` and `run`.
pub struct BuildArgs {
    /// Linker script to pass to the linker (`psexe.ld` when absent).
    pub link: Option<String>,
    /// Cargo features to enable.
    pub features: Option<String>,
    /// Load offset of the executable; a multiple of four bytes.
    pub load_offset: Option<u32>,
    /// Initial stack pointer; a multiple of four bytes.
    pub stack_pointer: Option<u32>,
    /// Emit an ELF instead of a raw PSX executable.
    pub elf: bool,
    /// Emit debug information (implies an ELF).
    pub debug: bool,
    /// Link-time optimisation.
    pub lto: bool,
    /// Optimise for size.
    pub small: bool,
    /// Pack the executable into a CD image.
    pub iso: bool,
    /// An existing image description to use.
    pub xml: Option<String>,
    /// The directory whose files go into the image.
    pub path: Option<String>,
    /// The name of the executable on the disc.
    pub appid: Option<String>,
    /// The volume identifier of the disc.
    pub volume: Option<String>,
    /// The publisher identifier of the disc.
    pub publisher: Option<String>,
    /// The toolchain to build with (`nightly` when absent).
    pub toolchain: Option<String>,
    /// Extra cargo flags, each given without its leading `--`.
    pub cargo_args: Vec<String>,
}

/// The mathematical content of [`BuildArgs`]: strings as character sequences.
pub struct BuildArgsView {
    pub link: Option<Seq<char>>,
    pub features: Option<Seq<char>>,
    pub load_offset: Option<u32>,
    pub stack_pointer: Option<u32>,
    pub elf: bool,
    pub debug: bool,
    pub lto: bool,
    pub small: bool,
    pub iso: bool,
    pub xml: Option<Seq<char>>,
    pub path: Option<Seq<char>>,
    pub appid: Option<Seq<char>>,
    pub volume: Option<Seq<char>>,
    pub publisher: Option<Seq<char>>,
    pub toolchain: Option<Seq<char>>,
    pub cargo_args: Seq<Seq<char>>,
}

impl BuildArgsView {
    /// No option given: every string absent, every flag off, no cargo flags.
    pub open spec fn none_given() -> BuildArgsView {
        BuildArgsView {
            link: None,
            features: None,
            load_offset: None,
            stack_pointer: None,
            elf: false,
            debug: false,
            lto: false,
            small: false,
            iso: false,
            xml: None,
            path: None,
            appid: None,
            volume: None,
            publisher: None,
            toolchain: None,
            cargo_args: Seq::empty(),
        }
    }
}

impl View for BuildArgs {
    type V = BuildArgsView;

    open spec fn view(&self) -> BuildArgsView {
        BuildArgsView {
            link: opt_view(self.link),
            features: opt_view(self.features),
            load_offset: self.load_offset,
            stack_pointer: self.stack_pointer,
            elf: self.elf,
            debug: self.debug,
            lto: self.lto,
            small: self.small,
            iso: self.iso,
            xml: opt_view(self.xml),
            path: opt_view(self.path),
            appid: opt_view(self.appid),
            volume: opt_view(self.volume),
            publisher: opt_view(self.publisher),
            toolchain: opt_view(self.toolchain),
            cargo_args: self.cargo_args.deep_view(),
        }
    }
}

fn clone_opt_string(o: &Option<String>) -> (r: Option<String>)
    ensures
        opt_view(r) == opt_view(*o),
{
    match o {
        Some(s) => Some(s.clone()),
        None => None,
    }
}

fn clone_strings(v: &Vec<String>) -> (r: Vec<String>)
    ensures
        r.deep_view() == v.deep_view(),
{
    let mut r: Vec<String> = Vec::new();
    let mut i: usize = 0;
    while i < v.len()
        invariant
            i <= v.len(),
            r.deep_view() == v.deep_view().take(i as int),
        decreases v.len() - i,
    {
        let x = v[i].clone();
        let ghost before = r.deep_view();
        r.push(x);
        proof {
            assert(r.deep_view() =~= before.push(x@));
            assert(v.deep_view().take(i + 1) =~= v.deep_view().take(i as int).push(v.deep_view()[i as int]));
        }
        i = i + 1;
    }
    assert(v.deep_view().take(i as int) =~= v.deep_view());
    r
}

impl Clone for BuildArgs {
    fn clone(&self) -> (r: Self)
        ensures
            r@ == self@,
    {
        BuildArgs {
            link: clone_opt_string(&self.link),
            features: clone_opt_string(&self.features),
            load_offset: self.load_offset,
            stack_pointer: self.stack_pointer,
            elf: self.elf,
            debug: self.debug,
            lto: self.lto,
            small: self.small,
            iso: self.iso,
            xml: clone_opt_string(&self.xml),
            path: clone_opt_string(&self.path),
            appid: clone_opt_string(&self.appid),
            volume: clone_opt_string(&self.volume),
            publisher: clone_opt_string(&self.publisher),
            toolchain: clone_opt_string(&self.toolchain),
            cargo_args: clone_strings(&self.cargo_args),
        }
    }
}

impl Default for BuildArgs {
    fn default() -> (r: Self)
        ensures
            r@ == BuildArgsView::none_given(),
    {
        let r = BuildArgs {
            link: None,
            features: None,
            load_offset: None,
            stack_pointer: None,
            elf: false,
            debug: false,
            lto: false,
            small: false,
            iso: false,
            xml: None,
            path: None,
            appid: None,
            volume: None,
            publisher: None,
            toolchain: None,
            cargo_args: Vec::new(),
        };
        assert(r.cargo_args.deep_view() =~= Seq::<Seq<char>>::empty());
        r
    }
}

/// The subcommands.
pub enum Commands {
    /// Build the executable (and the image when asked).
    Build(BuildArgs),
    /// Build as `Build` does.
    Run(BuildArgs),
    /// Type-check the crate.
    Check,
    /// Remove the build artifacts of every package.
    Clean,
}

impl Clone for Commands {
    fn clone(&self) -> (r: Self)
        ensures
            r.args_view() == self.args_view(),
            r.kind() == self.kind(),
    {
        match self {
            Commands::Build(a) => Commands::Build(a.clone()),
            Commands::Run(a) => Commands::Run(a.clone()),
            Commands::Check => Commands::Check,
            Commands::Clean => Commands::Clean,
        }
    }
}

impl Commands {
    /// Which subcommand this is: 0 build, 1 run, 2 check, 3 clean.
    pub open spec fn kind(&self) -> int {
        match self {
            Commands::Build(_) => 0,
            Commands::Run(_) => 1,
            Commands::Check => 2,
            Commands::Clean => 3,
        }
    }

    /// The build options a subcommand carries: its own for `build` and
    /// `run`, none given for the others.
    pub open spec fn args_view(&self) -> BuildArgsView {
        match self {
            Commands::Build(a) => a@,
            Commands::Run(a) => a@,
            _ => BuildArgsView::none_given(),
        }
    }

    /// The cargo subcommand that builds for this subcommand: `build` for
    /// `build` and `run`, `check` for `check`; `clean` runs no build.
    pub open spec fn cargo_subcommand(&self) -> Seq<char> {
        match self {
            Commands::Build(_) => "build"@,
            Commands::Run(_) => "build"@,
            Commands::Check => "check"@,
            Commands::Clean => Seq::empty(),
        }
    }

    /// The build options of this subcommand (none given for `check` and
    /// `clean`).
    pub fn build_args(&self) -> (r: BuildArgs)
        ensures
            r@ == self.args_view(),
            match self {
                Commands::Build(a) => r@ == a@,
                Commands::Run(a) => r@ == a@,
                _ => r@ == BuildArgsView::none_given(),
            },
    {
        match self {
            Commands::Build(a) | Commands::Run(a) => a.clone(),
            _ => BuildArgs::default(),
        }
    }

    /// The cargo subcommand to run for this subcommand.
    pub fn subcommand(&self) -> (r: &'static str)
        requires
            !(self is Clean),
        ensures
            r@ == self.cargo_subcommand(),
    {
        match self {
            Commands::Build(_) => "build",
            Commands::Run(_) => "build",
            Commands::Check => "check",
            Commands::Clean => "",
        }
    }
}

/// The parsed command line.
pub struct Cli {
    /// The subcommand given.
    pub command: Commands,
}

/// `run` builds exactly as `build` does: the same cargo subcommand with the
/// same options.
pub proof fn lemma_run_builds_as_build(a: BuildArgs)
    ensures
        Commands::Run(a).cargo_subcommand() == Commands::Build(a).cargo_subcommand(),
        Commands::Run(a).args_view() == Commands::Build(a).args_view(),
{
}

/// `build` and `run` hand on every one of their options unchanged.
pub proof fn lemma_build_and_run_carry_their_options(a: BuildArgs)
    ensures
        Commands::Build(a).args_view() == a@,
        Commands::Run(a).args_view() == a@,
        Commands::Build(a).args_view().iso == a.iso,
        Commands::Run(a).args_view().iso == a.iso,
{
}

/// `check` and `clean` carry no options: their build options are those of a
/// command line that gives none.
pub proof fn lemma_check_and_clean_take_no_options()
    ensures
        Commands::Check.args_view() == BuildArgsView::none_given(),
        Commands::Clean.args_view() == BuildArgsView::none_given(),
{
}

} // verus!
