use swiss::commands::{Cargo, NuEnv, NuShell};
use swiss::config_loader::LoadedManifest;
use swiss::parser::{EnvRequirement, NushellConfig, Os, ShellTargetConfig, SwissConfig};
use swiss::persistence::{
    Dependency, DependencyStatus, DependencyType, SwissCache, FINGERPRINT_KEY, MANIFEST_PATH_KEY,
    MANIFEST_PROFILES_KEY,
};
use swiss::plan::{PlanContext, Step};
use swiss::report::Outcome;
use swiss::session::{
    detect_shell, env_defaults, init_modules, installation_line, is_confirmation,
    profiles_from_lines, registered_profiles, run_failure_message, shell_registration_steps,
    status_lines, template_named, update_target, updating_message, Template,
};
use swiss::shellgen::ShellKind;
use swiss::strmap::StrMap;

fn manifest_of(config: SwissConfig) -> LoadedManifest {
    LoadedManifest { config, base_dir: ".".to_owned(), fingerprint: "f".to_owned() }
}

fn context() -> PlanContext {
    PlanContext {
        os: Os::Linux,
        home: "/home/tester".to_owned(),
        base_dir: ".".to_owned(),
        cache: SwissCache::default(),
        nu_installed: false,
        nu_version: None,
        cargo_installed: true,
        binstall_installed: true,
        available_shells: vec![],
        env: StrMap::new(),
        templates: StrMap::new(),
    }
}

#[test]
fn cargo_install_arguments_use_binstall() {
    assert_eq!(
        Cargo::install("ripgrep", &vec!["--locked".to_owned()]),
        vec!["binstall", "-y", "ripgrep", "--locked"]
    );
}

#[test]
fn nushell_command_lines() {
    assert_eq!(NuShell::get_env_value("$nu.env-path", Os::Linux), vec!["-c", "$nu.env-path"]);
    assert_eq!(NuShell::get_env_value("$nu.env-path", Os::Windows), vec!["-c", "echo $nu.env-path"]);
    assert_eq!(NuShell::version("0.101.0\n"), "0.101.0");
    assert_eq!(NuShell::install("0.101.0"), vec!["install", "nu@0.101.0", "--all-features"]);
    assert_eq!(NuEnv::get_value("PATH"), "$env.PATH");
}

#[test]
fn registered_profiles_skip_empty_lines() {
    assert_eq!(profiles_from_lines("base\n\ndevops\n"), vec!["base", "devops"]);
    assert!(profiles_from_lines("").is_empty());
    let mut cache = SwissCache::default();
    assert!(registered_profiles(&cache).is_empty());
    cache.set(MANIFEST_PROFILES_KEY, "a\nb");
    assert_eq!(registered_profiles(&cache), vec!["a", "b"]);
}

#[test]
fn confirmation_accepts_yes_only() {
    assert!(is_confirmation("y\n"));
    assert!(is_confirmation(" yes "));
    assert!(is_confirmation("Y"));
    assert!(!is_confirmation("n"));
    assert!(!is_confirmation(""));
}

#[test]
fn env_defaults_fill_unset_variables_once() {
    let mut config = SwissConfig::default();
    config.env.insert(
        "A".to_owned(),
        EnvRequirement { from_env: Some("SRC".to_owned()), required: false, default: Some("1".to_owned()) },
    );
    config.env.insert(
        "B".to_owned(),
        EnvRequirement { from_env: Some("SRC".to_owned()), required: false, default: Some("2".to_owned()) },
    );
    config.env.insert(
        "C".to_owned(),
        EnvRequirement { from_env: None, required: false, default: Some("3".to_owned()) },
    );
    let mut env = StrMap::new();
    env.insert("C".to_owned(), "set".to_owned());
    assert_eq!(env_defaults(&config, &env), vec![("SRC".to_owned(), "1".to_owned())]);
}

#[test]
fn setup_registers_uncovered_shells_only() {
    let config = SwissConfig::default();
    let steps = shell_registration_steps(&manifest_of(config), &context(), Some("zsh"), None).unwrap();
    assert_eq!(steps.len(), 1);
    assert!(matches!(&steps[0], Step::PatchBlock { target, block, .. } if target == "~/.zshrc" && block == "init"));

    let mut covered = SwissConfig::default();
    covered
        .shells
        .insert("zsh".to_owned(), ShellTargetConfig { enabled: false, ..ShellTargetConfig::default() });
    assert!(shell_registration_steps(&manifest_of(covered), &context(), Some("zsh"), None)
        .unwrap()
        .is_empty());

    assert_eq!(
        shell_registration_steps(&manifest_of(SwissConfig::default()), &context(), Some("fish"), None)
            .unwrap_err(),
        "Unknown shell 'fish'"
    );

    let nu = shell_registration_steps(&manifest_of(SwissConfig::default()), &context(), None, Some(ShellKind::Nushell))
        .unwrap();
    assert_eq!(nu.len(), 2);
    assert!(nu.contains(&Step::ConfigureNu));
}

#[test]
fn detected_shell_falls_back_to_managed_nushell() {
    let mut config = SwissConfig::default();
    assert_eq!(detect_shell(None, &manifest_of(config.clone())), None);
    config.nushell = Some(NushellConfig::default());
    assert_eq!(detect_shell(None, &manifest_of(config.clone())), Some(ShellKind::Nushell));
    assert_eq!(detect_shell(Some(ShellKind::Bash), &manifest_of(config)), Some(ShellKind::Bash));
}

#[test]
fn init_renders_modules_of_enabled_shells() {
    let mut config = SwissConfig::default();
    config.shells.insert(
        "zsh".to_owned(),
        ShellTargetConfig { modules: vec!["path".to_owned()], ..ShellTargetConfig::default() },
    );
    config.shells.insert(
        "bash".to_owned(),
        ShellTargetConfig { enabled: false, modules: vec!["path".to_owned()], ..ShellTargetConfig::default() },
    );
    assert_eq!(init_modules(&config, ShellKind::Zsh), vec!["path"]);
    assert!(init_modules(&config, ShellKind::Bash).is_empty());
    assert!(init_modules(&config, ShellKind::Pwsh).is_empty());
}

#[test]
fn failed_runs_point_at_the_log() {
    assert_eq!(run_failure_message(&Outcome::default()), None);
    let outcome = Outcome {
        completed: 1,
        failed: 2,
        failures: vec![],
        log_path: Some("/tmp/run.log".to_owned()),
    };
    assert_eq!(
        run_failure_message(&outcome).unwrap(),
        "2 step(s) failed; the rest were applied. See the full log at /tmp/run.log. Re-run to retry."
    );
}

#[test]
fn templates_are_named() {
    assert_eq!(template_named("dev-shell"), Ok(Template::DevShell));
    assert_eq!(
        template_named("x").unwrap_err(),
        "Unknown template 'x'. Available: workstation, service-host, dev-shell"
    );
}

#[test]
fn update_and_doctor_lines() {
    assert_eq!(updating_message("m.yaml", &vec![]), "Updating from m.yaml");
    assert_eq!(
        updating_message("m.yaml", &vec!["a".to_owned(), "b".to_owned()]),
        "Updating from m.yaml (profiles: a, b)"
    );
    assert_eq!(installation_line("git", true, true), "git        ok");
    assert_eq!(installation_line("apt-get", false, true), "apt-get    MISSING");
}

#[test]
fn status_lists_registration_and_dependencies() {
    let mut cache = SwissCache::default();
    assert_eq!(
        status_lines(&cache),
        vec![
            "swiss 0.1.0",
            "registered manifest: none (run `swiss setup`)",
            "last applied fingerprint: none",
            "no dependencies recorded yet",
            "0 alias(es) recorded",
        ]
    );
    cache.set(MANIFEST_PATH_KEY, "/m.yaml");
    cache.set(MANIFEST_PROFILES_KEY, "a\nb");
    cache.set(FINGERPRINT_KEY, "0123");
    cache.set_dep_in_memory(
        "bat",
        &Dependency::new("bat".to_owned(), None, DependencyStatus::UpToDate, DependencyType::Cargo),
    );
    cache.set_alias("ll", "ls -la");
    let lines = status_lines(&cache);
    assert_eq!(lines[1], "registered manifest: /m.yaml");
    assert_eq!(lines[2], "registered profiles: a, b");
    assert_eq!(lines[3], "last applied fingerprint: 0123");
    assert_eq!(lines[4], "1 dependenc(ies) recorded:");
    assert_eq!(lines[5], "  bat                  -          up-to-date   cargo");
    assert_eq!(lines[6], "1 alias(es) recorded");
}

#[test]
fn update_prefers_explicit_manifest_then_registered_one() {
    let mut cache = SwissCache::default();
    let none: Vec<String> = Vec::new();
    assert!(update_target(&cache, None, &none).unwrap_err().contains("No manifest registered yet"));
    assert_eq!(
        update_target(&cache, Some("/m.yaml"), &vec!["x".to_owned()]).unwrap(),
        ("/m.yaml".to_owned(), vec!["x".to_owned()])
    );
    cache.set(MANIFEST_PATH_KEY, "/reg.yaml");
    cache.set(MANIFEST_PROFILES_KEY, "a\nb");
    assert_eq!(
        update_target(&cache, None, &none).unwrap(),
        ("/reg.yaml".to_owned(), vec!["a".to_owned(), "b".to_owned()])
    );
    assert_eq!(
        update_target(&cache, None, &vec!["c".to_owned()]).unwrap(),
        ("/reg.yaml".to_owned(), vec!["c".to_owned()])
    );
}
