use cargo_psx::args::{BuildArgs, Commands};
use cargo_psx::commands::{
    build_cargo_args, build_cargo_command, build_rustflags, clean_invocation, iso_plan,
    mkpsxiso_invocation, process_outcome, system_cnf, ProjectMetadata,
};

fn strings(v: &[&str]) -> Vec<String> {
    v.iter().map(|s| s.to_string()).collect()
}

#[test]
fn cargo_args_get_dashes_and_release() {
    let args = build_cargo_args(&strings(&["verbose", "jobs 4"]));
    assert_eq!(args, strings(&["--verbose", "--jobs", "4", "--release"]));
}

#[test]
fn cargo_args_keep_empty_pieces() {
    let args = build_cargo_args(&strings(&["a  b", " "]));
    assert_eq!(args, strings(&["--a", "", "b", "--", "", "--release"]));
}

#[test]
fn cargo_args_without_extra_flags_are_release_only() {
    assert_eq!(build_cargo_args(&Vec::new()), strings(&["--release"]));
}

#[test]
fn rustflags_defaults() {
    let flags = build_rustflags(&BuildArgs::default(), None);
    assert_eq!(flags, "-Ccodegen-units=1 -Clink-arg=-Tpsexe.ld -Clink-arg=--oformat=binary");
}

#[test]
fn rustflags_from_environment_with_every_option() {
    let mut a = BuildArgs::default();
    a.link = Some("custom.ld".to_string());
    a.debug = true;
    a.lto = true;
    a.small = true;
    let flags = build_rustflags(&a, Some("-Cfoo".to_string()));
    assert_eq!(
        flags,
        "-Cfoo -Clink-arg=-Tcustom.ld -Clink-arg=--oformat=elf32-tradlittlemips -g -Clto=fat -Cembed-bitcode=yes -Copt-level=s"
    );
}

#[test]
fn rustflags_elf_without_debug() {
    let mut a = BuildArgs::default();
    a.elf = true;
    let flags = build_rustflags(&a, None);
    assert_eq!(flags, "-Ccodegen-units=1 -Clink-arg=-Tpsexe.ld -Clink-arg=--oformat=elf32-tradlittlemips");
}

#[test]
fn cargo_command_of_a_plain_build() {
    let inv = build_cargo_command(&BuildArgs::default(), "build", None);
    assert_eq!(inv.program, "cargo");
    assert_eq!(
        inv.args,
        strings(&[
            "+nightly",
            "build",
            "-Zbuild-std=core,alloc",
            "-Zbuild-std-features=compiler-builtins-mem",
            "--target",
            "mipsel-sony-psx",
            "--release",
        ])
    );
    assert_eq!(
        inv.envs,
        vec![(
            "RUSTFLAGS".to_string(),
            "-Ccodegen-units=1 -Clink-arg=-Tpsexe.ld -Clink-arg=--oformat=binary".to_string()
        )]
    );
}

#[test]
fn cargo_command_with_toolchain_features_and_addresses() {
    let mut a = BuildArgs::default();
    a.toolchain = Some("stage1".to_string());
    a.features = Some("fancy".to_string());
    a.load_offset = Some(0x1000);
    a.stack_pointer = Some(2147483648);
    a.cargo_args = strings(&["offline"]);
    let inv = build_cargo_command(&a, "check", Some("-Cx".to_string()));
    assert_eq!(
        inv.args,
        strings(&[
            "+stage1",
            "check",
            "-Zbuild-std=core,alloc",
            "-Zbuild-std-features=compiler-builtins-mem",
            "--target",
            "mipsel-sony-psx",
            "--offline",
            "--release",
            "--features",
            "fancy",
        ])
    );
    assert_eq!(
        inv.envs,
        vec![
            (
                "RUSTFLAGS".to_string(),
                "-Cx -Clink-arg=-Tpsexe.ld -Clink-arg=--oformat=binary".to_string()
            ),
            ("PSX_LOAD_OFFSET".to_string(), "4096".to_string()),
            ("PSX_STACK_POINTER".to_string(), "2147483648".to_string()),
        ]
    );
}

#[test]
fn run_and_build_run_the_same_cargo_command() {
    let mut a = BuildArgs::default();
    a.small = true;
    let build = Commands::Build(a.clone());
    let run = Commands::Run(a);
    assert_eq!(build.subcommand(), "build");
    assert_eq!(run.subcommand(), "build");
    let from_build = build_cargo_command(&build.build_args(), build.subcommand(), None);
    let from_run = build_cargo_command(&run.build_args(), run.subcommand(), None);
    assert_eq!(from_build.args, from_run.args);
    assert_eq!(from_build.envs, from_run.envs);
}

#[test]
fn check_builds_with_no_options() {
    let check = Commands::Check;
    assert_eq!(check.subcommand(), "check");
    let a = check.build_args();
    assert!(!a.iso && !a.elf && a.cargo_args.is_empty() && a.link.is_none());
    assert!(Commands::Clean.build_args().toolchain.is_none());
}

#[test]
fn clean_command_names_the_package() {
    let inv = clean_invocation("game");
    assert_eq!(inv.program, "cargo");
    assert_eq!(inv.args, strings(&["clean", "-p", "game"]));
    assert!(inv.envs.is_empty());
}

#[test]
fn successful_process_is_ok() {
    let inv = clean_invocation("game");
    assert!(process_outcome(&inv, true, Some(0)).is_ok());
    assert!(process_outcome(&inv, true, None).is_ok());
}

#[test]
fn failed_process_reports_its_arguments_run_together() {
    let inv = clean_invocation("game");
    let err = process_outcome(&inv, false, Some(101)).unwrap_err();
    assert_eq!(err.cmd(), "cargo");
    assert_eq!(err.args(), Some("clean-pgame"));
    assert_eq!(err.exit_code(), 101);
    assert_eq!(err.message(), "Command cargo clean-pgame exited with code 101");
}

#[test]
fn failed_process_without_arguments() {
    let mut inv = mkpsxiso_invocation("game.xml");
    inv.args.clear();
    let err = process_outcome(&inv, false, Some(-3)).unwrap_err();
    assert_eq!(err.args(), None);
    assert_eq!(err.message(), "Command mkpsxiso exited with code -3");
}

#[test]
fn system_cnf_boots_the_uppercase_executable() {
    assert_eq!(
        system_cnf("hello"),
        "BOOT=cdrom:\\HELLO.EXE;1\r\nTCB=4\r\nEVENT=16\r\nSTACK=801FFFF0\r\n"
    );
}

#[test]
fn system_cnf_uses_unicode_uppercase() {
    assert_eq!(
        system_cnf("straße"),
        "BOOT=cdrom:\\STRASSE.EXE;1\r\nTCB=4\r\nEVENT=16\r\nSTACK=801FFFF0\r\n"
    );
}

fn metadata() -> ProjectMetadata {
    ProjectMetadata {
        target_directory: "/work/target".to_string(),
        package_names: strings(&["game", "engine"]),
        root_package_name: Some("game".to_string()),
    }
}

#[test]
fn iso_plan_generates_description_from_default_assets() {
    let mut a = BuildArgs::default();
    a.iso = true;
    let plan = iso_plan(&metadata(), &a);
    assert_eq!(plan.target, "/work/target/mipsel-sony-psx/release/game.exe");
    assert_eq!(plan.image_name, "game");
    assert_eq!(plan.app_id, "game");
    assert_eq!(plan.xml_path, "game.xml");
    assert_eq!(plan.assets_dir, Some("assets".to_string()));
    assert!(plan.create_assets_dir);
}

#[test]
fn iso_plan_with_given_path_and_appid() {
    let mut a = BuildArgs::default();
    a.path = Some("data".to_string());
    a.appid = Some("slus_000".to_string());
    let plan = iso_plan(&metadata(), &a);
    assert_eq!(plan.app_id, "slus_000");
    assert_eq!(plan.assets_dir, Some("data".to_string()));
    assert!(!plan.create_assets_dir);
    assert_eq!(plan.xml_path, "game.xml");
}

#[test]
fn iso_plan_with_given_description() {
    let mut a = BuildArgs::default();
    a.xml = Some("disc.xml".to_string());
    let plan = iso_plan(&metadata(), &a);
    assert_eq!(plan.xml_path, "disc.xml");
    assert_eq!(plan.assets_dir, None);
    assert!(!plan.create_assets_dir);
}

#[test]
fn mkpsxiso_gets_the_description() {
    let inv = mkpsxiso_invocation("game.xml");
    assert_eq!(inv.program, "mkpsxiso");
    assert_eq!(inv.args, strings(&["game.xml"]));
}

#[test]
fn boot_entry_names_the_executable_on_the_disc() {
    let cnf = system_cnf("game_01");
    let xml = String::from_utf8(
        cargo_psx::xml::generate_xml(&Vec::new(), "demo", "game_01", "t/demo.exe", None, None).unwrap(),
    )
    .unwrap();
    assert!(cnf.starts_with("BOOT=cdrom:\\GAME_01.EXE;1\r\n"));
    assert!(xml.contains("<file name=\"GAME_01.EXE\" source=\"t/demo.exe\" type=\"data\" />"));
}
