use swiss::config_loader::LoadedManifest;
use swiss::error::PlanError;
use swiss::parser::{
    CargoCustomConfig, CommandSpec, CustomDependency, EnvRequirement, FileSpec, GitConfig,
    LinuxPackageManagerConfig, MacosPackageManagerConfig, NushellConfig, Os,
    PackageManagerBackendConfig, PackageManagerConfig, RustConfig, SwissConfig,
    WindowsPackageManagerConfig,
};
use swiss::persistence::{Dependency, DependencyStatus, DependencyType, SwissCache};
use swiss::plan::{
    build_plan, cargo_steps, custom_steps, git_clone_args, nushell_steps, package_manager_steps,
    rust_component_steps, Plan, PlanContext, Step,
};
use swiss::strmap::StrMap;

fn strings(items: &[&str]) -> Vec<String> {
    items.iter().map(|s| s.to_string()).collect()
}

fn test_context(os: Os) -> PlanContext {
    PlanContext {
        os,
        home: "/home/tester".to_owned(),
        base_dir: "/manifests".to_owned(),
        cache: SwissCache::default(),
        nu_installed: false,
        nu_version: None,
        cargo_installed: true,
        binstall_installed: true,
        available_shells: Vec::new(),
        env: StrMap::new(),
        templates: StrMap::new(),
    }
}

fn manifest_of(config: SwissConfig) -> LoadedManifest {
    LoadedManifest {
        config,
        base_dir: "/manifests".to_owned(),
        fingerprint: "test".to_owned(),
    }
}

#[test]
fn git_clone_args_include_optional_checkout_flags_before_repo() {
    let git = GitConfig {
        repo: "https://example.invalid/tool.git".to_owned(),
        branch: Some("main".to_owned()),
        depth: Some(1),
        recursive: true,
    };

    let args = git_clone_args(&git, "/tmp/swiss/tool");

    assert_eq!(
        args,
        vec![
            "clone",
            "--depth",
            "1",
            "--branch",
            "main",
            "--recursive",
            "https://example.invalid/tool.git",
            "/tmp/swiss/tool",
        ]
    );
}

#[test]
fn git_clone_args_without_options() {
    let git = GitConfig {
        repo: "https://example.invalid/t.git".to_owned(),
        branch: None,
        depth: Some(250),
        recursive: false,
    };
    assert_eq!(
        git_clone_args(&git, "/d"),
        vec!["clone", "--depth", "250", "https://example.invalid/t.git", "/d"]
    );
}

#[test]
fn rust_component_steps_preserve_manifest_order() {
    let mut config = SwissConfig::default();
    config.rust = RustConfig {
        components: strings(&["rust-analyzer", "clippy"]),
        ..RustConfig::default()
    };

    let steps = rust_component_steps(&config);
    assert_eq!(steps.len(), 2);
    assert_eq!(
        steps[0],
        Step::Command {
            program: "rustup".to_owned(),
            args: strings(&["component", "add", "rust-analyzer"]),
            cwd: None,
            requires_admin: false,
        }
    );
}

#[test]
fn rust_components_name_the_declared_toolchain() {
    let mut config = SwissConfig::default();
    config.rust.toolchain = "nightly".to_owned();
    config.rust.components = strings(&["clippy"]);
    let steps = rust_component_steps(&config);
    assert_eq!(
        steps,
        vec![Step::Command {
            program: "rustup".to_owned(),
            args: strings(&["component", "add", "--toolchain", "nightly", "clippy"]),
            cwd: None,
            requires_admin: false,
        }]
    );
}

#[test]
fn package_manager_steps_empty_without_packages() {
    for os in [Os::Linux, Os::Macos, Os::Windows] {
        assert!(package_manager_steps(&SwissConfig::default(), os).is_empty());
    }
}

fn package_manager_config() -> SwissConfig {
    let mut config = SwissConfig::default();
    config.package_manager = PackageManagerConfig {
        linux: Some(LinuxPackageManagerConfig {
            apt: Some(PackageManagerBackendConfig {
                packages: strings(&["build-essential", "pkg-config"]),
                ..PackageManagerBackendConfig::default()
            }),
        }),
        macos: Some(MacosPackageManagerConfig {
            brew: Some(PackageManagerBackendConfig {
                packages: strings(&["cmake"]),
                ..PackageManagerBackendConfig::default()
            }),
        }),
        windows: Some(WindowsPackageManagerConfig {
            scoop: Some(PackageManagerBackendConfig {
                packages: strings(&["libssl-dev"]),
                ..PackageManagerBackendConfig::default()
            }),
        }),
    };
    config
}

#[test]
fn package_manager_steps_build_per_os_commands() {
    let config = package_manager_config();

    assert_eq!(
        package_manager_steps(&config, Os::Linux),
        vec![Step::Command {
            program: "sudo".to_owned(),
            args: strings(&["apt-get", "install", "-y", "build-essential", "pkg-config"]),
            cwd: None,
            requires_admin: true,
        }]
    );

    assert_eq!(
        package_manager_steps(&config, Os::Macos),
        vec![Step::Command {
            program: "brew".to_owned(),
            args: strings(&["install", "cmake"]),
            cwd: None,
            requires_admin: false,
        }]
    );

    assert_eq!(
        package_manager_steps(&config, Os::Windows),
        vec![Step::Command {
            program: "scoop".to_owned(),
            args: strings(&["install", "libssl-dev"]),
            cwd: None,
            requires_admin: false,
        }]
    );
}

#[test]
fn apt_update_index_adds_update_step_first() {
    let mut config = package_manager_config();
    config
        .package_manager
        .linux
        .as_mut()
        .unwrap()
        .apt
        .as_mut()
        .unwrap()
        .update_index = true;

    let steps = package_manager_steps(&config, Os::Linux);
    assert_eq!(steps.len(), 2);
    assert_eq!(
        steps[0],
        Step::Command {
            program: "sudo".to_owned(),
            args: strings(&["apt-get", "update"]),
            cwd: None,
            requires_admin: true,
        }
    );
}

fn custom_tool(install: &str, update: Option<&str>) -> CustomDependency {
    CustomDependency {
        install: Some(vec![CommandSpec::Plain(install.to_owned())]),
        update: update.map(|u| vec![CommandSpec::Plain(u.to_owned())]),
        ..CustomDependency::default()
    }
}

fn shell_command_runs(steps: &[Step], text: &str) -> bool {
    steps.iter().any(|step| matches!(
        step,
        Step::ShellCommand { command, .. } if command == text
    ))
}

#[test]
fn custom_dependency_uses_install_then_update() {
    let mut config = SwissConfig::default();
    config
        .dependencies
        .customs
        .insert("tool".to_owned(), custom_tool("echo install", Some("echo update")));
    let manifest = manifest_of(config);

    // First run: not in cache -> install.
    let context = test_context(Os::Linux);
    let plan = build_plan(&manifest, &context).unwrap();
    assert!(shell_command_runs(&plan.steps, "echo install"));

    // Second run: cached -> update.
    let mut cached = test_context(Os::Linux);
    cached.cache.set_dep_in_memory(
        "tool",
        &Dependency::new(
            "tool".to_owned(),
            None,
            DependencyStatus::UpToDate,
            DependencyType::Custom,
        ),
    );
    let plan = build_plan(&manifest, &cached).unwrap();
    assert!(shell_command_runs(&plan.steps, "echo update"));
    assert!(!shell_command_runs(&plan.steps, "echo install"));
}

#[test]
fn custom_dependency_skips_non_current_os() {
    let mut config = SwissConfig::default();
    config.dependencies.customs.insert(
        "winonly".to_owned(),
        CustomDependency {
            windows: Some(true),
            linux: Some(false),
            macos: Some(false),
            install: Some(vec![CommandSpec::Plain("echo hi".to_owned())]),
            ..CustomDependency::default()
        },
    );
    let context = test_context(Os::Linux);

    let steps = custom_steps(&config, &context).unwrap();
    // Only the modules root dir, no install/record steps.
    assert_eq!(steps.len(), 1);
    assert!(matches!(steps[0], Step::EnsureDir { .. }));
}

#[test]
fn custom_dependency_steps_run_in_their_checkout() {
    let mut config = SwissConfig::default();
    config.dependencies.customs.insert(
        "helix".to_owned(),
        CustomDependency {
            git: Some(GitConfig {
                repo: "https://example.invalid/helix".to_owned(),
                branch: None,
                depth: None,
                recursive: false,
            }),
            install: Some(vec![CommandSpec::Plain("make".to_owned())]),
            ..CustomDependency::default()
        },
    );
    let steps = custom_steps(&config, &test_context(Os::Linux)).unwrap();
    let dir = "/home/tester/.config/swiss/crates/helix".to_owned();
    assert_eq!(
        steps,
        vec![
            Step::EnsureDir { path: "/home/tester/.config/swiss/crates".to_owned() },
            Step::GitSync {
                repo: "https://example.invalid/helix".to_owned(),
                branch: None,
                depth: None,
                recursive: false,
                dest: dir.clone(),
            },
            Step::ShellCommand {
                shell: "sh".to_owned(),
                command: "make".to_owned(),
                cwd: Some(dir),
                requires_admin: false,
            },
            Step::RecordDep {
                dep: Dependency::new(
                    "helix".to_owned(),
                    None,
                    DependencyStatus::UpToDate,
                    DependencyType::Custom
                ),
            },
        ]
    );
}

#[test]
fn cargo_steps_skip_cached_pinned_versions() {
    let mut config = SwissConfig::default();
    config.dependencies.cargo.insert(
        "tool".to_owned(),
        Some(CargoCustomConfig {
            version: "1.2.3".to_owned(),
            ..CargoCustomConfig::default()
        }),
    );

    let mut context = test_context(Os::Linux);
    context.cache.set_dep_in_memory(
        "tool",
        &Dependency::new(
            "tool".to_owned(),
            Some("1.2.3".to_owned()),
            DependencyStatus::UpToDate,
            DependencyType::Cargo,
        ),
    );

    assert!(cargo_steps(&config, &context).is_empty());

    // Different cached version -> reinstall with name@version.
    let mut outdated = test_context(Os::Linux);
    outdated.cache.set_dep_in_memory(
        "tool",
        &Dependency::new(
            "tool".to_owned(),
            Some("1.0.0".to_owned()),
            DependencyStatus::UpToDate,
            DependencyType::Cargo,
        ),
    );
    let steps = cargo_steps(&config, &outdated);
    assert!(steps.iter().any(|step| matches!(
        step,
        Step::Command { args, .. } if args.contains(&"tool@1.2.3".to_owned())
    )));
}

#[test]
fn cargo_binstall_is_planned_first() {
    let mut config = SwissConfig::default();
    config.dependencies.cargo.insert("bat".to_owned(), None);
    config
        .dependencies
        .cargo
        .insert("cargo-binstall".to_owned(), None);

    let context = test_context(Os::Linux);
    let steps = cargo_steps(&config, &context);
    match &steps[0] {
        Step::Command { args, .. } => assert!(args.contains(&"cargo-binstall".to_owned())),
        other => panic!("expected command, got {:?}", other),
    }
}

#[test]
fn cargo_entry_installs_records_and_keeps_aliases() {
    let mut alias = StrMap::new();
    alias.insert("cdi".to_owned(), "__zoxide_zi".to_owned());
    let mut config = SwissConfig::default();
    config.dependencies.cargo.insert(
        "zoxide".to_owned(),
        Some(CargoCustomConfig {
            version: "0.9.4".to_owned(),
            args: strings(&["--locked"]),
            alias,
            ..CargoCustomConfig::default()
        }),
    );
    let steps = cargo_steps(&config, &test_context(Os::Linux));
    assert_eq!(steps.len(), 3);
    assert_eq!(
        steps[0],
        Step::Command {
            program: "/home/tester/.cargo/bin/cargo".to_owned(),
            args: strings(&["binstall", "-y", "zoxide@0.9.4", "--locked"]),
            cwd: None,
            requires_admin: false,
        }
    );
    assert!(matches!(&steps[2], Step::RecordAliases { aliases } if aliases.len() == 1));
}

#[test]
fn missing_binstall_is_bootstrapped_with_cargo_install() {
    let mut config = SwissConfig::default();
    config.dependencies.cargo.insert("bat".to_owned(), None);
    let mut context = test_context(Os::Linux);
    context.binstall_installed = false;
    let plan = build_plan(&manifest_of(config), &context).unwrap();
    assert_eq!(
        plan.steps[0],
        Step::Command {
            program: "/home/tester/.cargo/bin/cargo".to_owned(),
            args: strings(&["install", "--locked", "cargo-binstall"]),
            cwd: None,
            requires_admin: false,
        }
    );
    assert!(matches!(&plan.steps[1], Step::Command { args, .. } if args[0] == "binstall"));
}

#[test]
fn missing_cargo_runs_the_rustup_installer_first() {
    let mut config = SwissConfig::default();
    config.dependencies.cargo.insert("bat".to_owned(), None);
    let mut context = test_context(Os::Linux);
    context.cargo_installed = false;
    let plan = build_plan(&manifest_of(config), &context).unwrap();
    assert_eq!(
        plan.steps[0],
        Step::ShellCommand {
            shell: "sh".to_owned(),
            command: "curl https://sh.rustup.rs -sSf | sh -s -- -y".to_owned(),
            cwd: None,
            requires_admin: false,
        }
    );
}

#[test]
fn nushell_steps_skip_when_version_matches() {
    let mut config = SwissConfig::default();
    config.nushell = Some(NushellConfig { version: Some("0.101.0".to_owned()) });

    let mut context = test_context(Os::Linux);
    context.nu_installed = true;
    context.nu_version = Some("0.101.0".to_owned());
    assert!(nushell_steps(&config, &context).is_empty());

    context.nu_version = Some("0.99.0".to_owned());
    let steps = nushell_steps(&config, &context);
    assert!(matches!(steps[0], Step::Command { .. }));
    assert!(steps.contains(&Step::LinkNuBinaries));
}

#[test]
fn unpinned_nushell_is_installed_even_when_present() {
    let mut config = SwissConfig::default();
    config.nushell = Some(NushellConfig { version: None });
    let mut context = test_context(Os::Linux);
    context.nu_installed = true;
    context.nu_version = Some("0.101.0".to_owned());
    let steps = nushell_steps(&config, &context);
    assert_eq!(steps.len(), 3);
    assert_eq!(
        steps[0],
        Step::Command {
            program: "/home/tester/.cargo/bin/cargo".to_owned(),
            args: strings(&["binstall", "-y", "nu"]),
            cwd: None,
            requires_admin: false,
        }
    );
    assert_eq!(steps[1], Step::LinkNuBinaries);
}

#[test]
fn nushell_installs_through_binstall_on_windows_with_a_non_admin_link_step() {
    let mut config = SwissConfig::default();
    config.nushell = Some(NushellConfig { version: None });
    let steps = nushell_steps(&config, &test_context(Os::Windows));
    assert_eq!(steps.len(), 3);
    assert_eq!(
        steps[0],
        Step::Command {
            program: "/home/tester/.cargo/bin/cargo".to_owned(),
            args: strings(&["binstall", "-y", "nu"]),
            cwd: None,
            requires_admin: false,
        }
    );
    assert_eq!(steps[1], Step::LinkNuBinaries);
    assert!(!steps[1].requires_admin(Os::Windows));
    assert!(steps[1].requires_admin(Os::Linux));
}

#[test]
fn files_section_produces_write_steps_with_modes() {
    let mut config = SwissConfig::default();
    config.files = vec![
        FileSpec {
            source: Some("./starship.toml".to_owned()),
            dest: "~/.config/starship.toml".to_owned(),
            overwrite: false,
            ..FileSpec::default()
        },
        FileSpec {
            content: Some("source ~/.config/swiss/env.nu\n".to_owned()),
            dest: "~/.config/nushell/env.nu".to_owned(),
            append_if_missing: true,
            ..FileSpec::default()
        },
    ];
    let manifest = manifest_of(config);
    let mut context = test_context(Os::Linux);
    context.templates.insert(
        "./starship.toml".to_owned(),
        Ok(b"format = \"$all\"".to_vec()),
    );

    let plan = build_plan(&manifest, &context).unwrap();
    let writes: Vec<&Step> = plan
        .steps
        .iter()
        .filter(|step| matches!(step, Step::WriteFile { .. }))
        .collect();
    assert_eq!(writes.len(), 2);
    match writes[0] {
        Step::WriteFile { path, content, .. } => {
            assert_eq!(path, "/home/tester/.config/starship.toml");
            assert_eq!(content, b"format = \"$all\"");
        }
        _ => unreachable!(),
    }
    match writes[1] {
        Step::WriteFile { append_if_missing, .. } => assert!(*append_if_missing),
        _ => unreachable!(),
    }
}

#[test]
fn file_entries_need_exactly_one_source() {
    let mut config = SwissConfig::default();
    config.files = vec![FileSpec { dest: "~/.config/x".to_owned(), ..FileSpec::default() }];
    let error = build_plan(&manifest_of(config), &test_context(Os::Linux)).unwrap_err();
    assert_eq!(error, PlanError::FileNoSource { dest: "~/.config/x".to_owned() });
    assert_eq!(error.message(), "File entry for '~/.config/x' needs either 'source' or 'content'");

    let mut config = SwissConfig::default();
    config.files = vec![FileSpec {
        source: Some("a".to_owned()),
        content: Some("b".to_owned()),
        dest: "~/y".to_owned(),
        ..FileSpec::default()
    }];
    let error = build_plan(&manifest_of(config), &test_context(Os::Linux)).unwrap_err();
    assert_eq!(error.message(), "File entry for '~/y' defines both 'source' and 'content'");
}

#[test]
fn unreadable_template_reports_its_path() {
    let mut config = SwissConfig::default();
    config.files = vec![FileSpec {
        source: Some("t/missing.toml".to_owned()),
        dest: "~/z".to_owned(),
        ..FileSpec::default()
    }];
    let mut context = test_context(Os::Linux);
    context
        .templates
        .insert("t/missing.toml".to_owned(), Err("No such file or directory".to_owned()));
    let error = build_plan(&manifest_of(config), &context).unwrap_err();
    assert_eq!(
        error.message(),
        "Failed to read file template /manifests/t/missing.toml: No such file or directory"
    );
}

#[test]
fn admin_files_are_marked_in_the_plan() {
    let mut config = SwissConfig::default();
    config.files = vec![FileSpec {
        content: Some("x".to_owned()),
        dest: "/etc/app.conf".to_owned(),
        admin: true,
        ..FileSpec::default()
    }];
    let plan = build_plan(&manifest_of(config), &test_context(Os::Linux)).unwrap();
    assert!(plan.requires_admin(Os::Linux));
    assert_eq!(
        plan.render(),
        "  1. write file: /etc/app.conf (create-if-missing, 1 bytes) [admin]\n"
    );
}

#[test]
fn missing_required_env_fails_plan() {
    let mut config = SwissConfig::default();
    config.env.insert(
        "GITHUB_TOKEN".to_owned(),
        EnvRequirement {
            from_env: Some("SWISS_TEST_SURELY_UNSET_TOKEN".to_owned()),
            required: true,
            default: None,
        },
    );
    let manifest = manifest_of(config);
    let context = test_context(Os::Linux);

    let error = build_plan(&manifest, &context).unwrap_err();
    assert!(error.message().contains("SWISS_TEST_SURELY_UNSET_TOKEN"));
    assert_eq!(
        error.message(),
        "Required environment variable 'SWISS_TEST_SURELY_UNSET_TOKEN' (for 'GITHUB_TOKEN') is not set"
    );
}

#[test]
fn required_env_is_satisfied_by_the_snapshot_or_a_default() {
    let mut config = SwissConfig::default();
    config.env.insert(
        "TOKEN".to_owned(),
        EnvRequirement { from_env: None, required: true, default: None },
    );
    let mut context = test_context(Os::Linux);
    context.env.insert("TOKEN".to_owned(), "x".to_owned());
    assert!(build_plan(&manifest_of(config.clone()), &context).is_ok());

    config.env.insert(
        "TOKEN".to_owned(),
        EnvRequirement { from_env: None, required: true, default: Some("d".to_owned()) },
    );
    assert!(build_plan(&manifest_of(config), &test_context(Os::Linux)).is_ok());
}

#[test]
fn force_file_overwrites_only_touches_write_steps() {
    let plan = Plan {
        steps: vec![
            Step::Command {
                program: "x".to_owned(),
                args: vec![],
                cwd: None,
                requires_admin: false,
            },
            Step::WriteFile {
                path: "/tmp/a".to_owned(),
                content: vec![],
                overwrite: false,
                append_if_missing: false,
                backup: false,
                requires_admin: false,
            },
        ],
    };

    let forced = plan.force_file_overwrites();
    assert_eq!(forced.steps.len(), 2);
    assert!(matches!(forced.steps[0], Step::Command { .. }));
    assert!(matches!(forced.steps[1], Step::WriteFile { overwrite: true, .. }));
}

#[test]
fn empty_plan_renders_nothing_to_do() {
    let plan = Plan::default();
    assert!(plan.is_empty());
    assert_eq!(plan.render(), "Nothing to do: the plan is empty.");
    assert!(!plan.requires_admin(Os::Linux));
}

#[test]
fn link_step_needs_admin_only_on_unix() {
    let plan = Plan { steps: vec![Step::LinkNuBinaries] };
    assert!(plan.requires_admin(Os::Linux));
    assert!(!plan.requires_admin(Os::Windows));
    assert_eq!(
        Step::LinkNuBinaries.describe(),
        "link nu binaries from ~/.cargo/bin to /usr/local/bin [admin]"
    );
}

#[test]
fn forcing_file_overwrites_twice_is_forcing_once() {
    let plan = Plan {
        steps: vec![
            Step::WriteFile {
                path: "/a".to_owned(),
                content: b"x".to_vec(),
                overwrite: false,
                append_if_missing: true,
                backup: true,
                requires_admin: false,
            },
            Step::ConfigureNu,
        ],
    };
    let once = plan.clone().force_file_overwrites();
    let twice = plan.force_file_overwrites().force_file_overwrites();
    assert_eq!(once, twice);
    assert!(matches!(
        &once.steps[0],
        Step::WriteFile { overwrite: true, append_if_missing: true, backup: true, .. }
    ));
}

#[test]
fn recorded_pin_is_not_planned_again() {
    let mut config = SwissConfig::default();
    config.dependencies.cargo.insert(
        "tool".to_owned(),
        Some(CargoCustomConfig { version: "2.0.0".to_owned(), ..CargoCustomConfig::default() }),
    );
    let mut context = test_context(Os::Linux);
    let first = cargo_steps(&config, &context);
    let recorded = first
        .iter()
        .find_map(|step| match step {
            Step::RecordDep { dep } => Some(Dependency::new(
                dep.name.clone(),
                dep.version.clone(),
                dep.status,
                dep.dep_type,
            )),
            _ => None,
        })
        .unwrap();
    context.cache.set_dep_in_memory("tool", &recorded);
    assert!(cargo_steps(&config, &context).is_empty());
}
