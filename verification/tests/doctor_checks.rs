use swiss::config_loader::LoadedManifest;
use swiss::doctor::{installation_checks, validate_manifest, Finding};
use swiss::parser::{
    CommandSpec, CustomDependency, FileSpec, NushellConfig, Os, PackageManagerBackendConfig,
    PackageManagerConfig, ShellMode, ShellModuleSpec, ShellTargetConfig, SwissConfig,
    WindowsPackageManagerConfig,
};
use swiss::persistence::SwissCache;
use swiss::plan::PlanContext;
use swiss::strmap::StrMap;

fn strings(items: &[&str]) -> Vec<String> {
    items.iter().map(|s| s.to_string()).collect()
}

fn manifest_of(config: SwissConfig) -> LoadedManifest {
    LoadedManifest { config, base_dir: "/manifests".to_owned(), fingerprint: "test".to_owned() }
}

fn test_context() -> PlanContext {
    PlanContext {
        os: Os::Linux,
        home: "/home/tester".to_owned(),
        base_dir: "/manifests".to_owned(),
        cache: SwissCache::default(),
        nu_installed: true,
        nu_version: Some("0.101.0".to_owned()),
        cargo_installed: true,
        binstall_installed: true,
        available_shells: strings(&["zsh", "bash", "pwsh"]),
        env: StrMap::new(),
        templates: StrMap::new(),
    }
}

fn has_error(findings: &[Finding]) -> bool {
    findings.iter().any(Finding::is_error)
}

fn messages(findings: &[Finding]) -> Vec<String> {
    findings.iter().map(|finding| finding.describe()).collect()
}

fn custom_with(command: CommandSpec) -> SwissConfig {
    let mut config = SwissConfig::default();
    config.dependencies.customs.insert(
        "tool".to_owned(),
        CustomDependency { install: Some(vec![command]), ..CustomDependency::default() },
    );
    config
}

#[test]
fn clean_manifest_has_no_errors() {
    let mut config = SwissConfig::default();
    config.nushell = Some(NushellConfig { version: Some("0.101.0".to_owned()) });
    config.dependencies.cargo.insert("ripgrep".to_owned(), None);
    let findings = validate_manifest(&manifest_of(config), &test_context());
    assert!(!has_error(&findings), "findings: {:?}", findings);
}

#[test]
fn unsupported_command_shell_is_an_error() {
    let config = custom_with(CommandSpec::Detailed {
        run: "make install".to_owned(),
        shell: Some("fish".to_owned()),
        requires_admin: false,
    });
    let findings = validate_manifest(&manifest_of(config), &test_context());
    assert!(findings
        .iter()
        .any(|finding| finding.is_error() && finding.describe().contains("fish")));
    assert!(messages(&findings).contains(
        &"error: 'custom dependency 'tool'' uses unsupported command shell 'fish' (supported: nu, nushell, sh, bash, zsh, pwsh, powershell, cmd)".to_owned()
    ));
}

#[test]
fn nu_commands_without_nushell_section_warn() {
    let nu_command = CommandSpec::Detailed {
        run: "ls | first".to_owned(),
        shell: Some("nu".to_owned()),
        requires_admin: false,
    };
    let config = custom_with(nu_command.clone());
    let findings = validate_manifest(&manifest_of(config), &test_context());
    assert!(messages(&findings)
        .iter()
        .any(|message| message.contains("neither a 'nushell' section")));

    // A nushell shell enabled in `shells` also satisfies the requirement.
    let mut config = custom_with(nu_command);
    config.shells.insert(
        "nushell".to_owned(),
        ShellTargetConfig { mode: Some(ShellMode::ManagedLoader), ..ShellTargetConfig::default() },
    );
    let findings = validate_manifest(&manifest_of(config), &test_context());
    assert!(!messages(&findings)
        .iter()
        .any(|message| message.contains("neither a 'nushell' section")));
}

fn starship_config() -> SwissConfig {
    let mut config = SwissConfig::default();
    config.shells.insert(
        "zsh".to_owned(),
        ShellTargetConfig { modules: strings(&["starship"]), ..ShellTargetConfig::default() },
    );
    let mut starship = ShellModuleSpec::default();
    starship.package = Some("starship".to_owned());
    starship.init.insert("zsh".to_owned(), "eval \"$(starship init zsh)\"".to_owned());
    config.shell_modules.insert("starship".to_owned(), starship);
    config
}

#[test]
fn module_package_without_installer_warns() {
    let findings = validate_manifest(&manifest_of(starship_config()), &test_context());
    assert!(messages(&findings)
        .iter()
        .any(|message| message.contains("references package 'starship'")));

    // Declaring it as a cargo dependency silences the warning.
    let mut config = starship_config();
    config.dependencies.cargo.insert("starship".to_owned(), None);
    let findings = validate_manifest(&manifest_of(config), &test_context());
    assert!(!messages(&findings)
        .iter()
        .any(|message| message.contains("references package")));
}

#[test]
fn missing_pm_for_current_os_warns() {
    let mut config = SwissConfig::default();
    config.package_manager = PackageManagerConfig {
        windows: Some(WindowsPackageManagerConfig {
            scoop: Some(PackageManagerBackendConfig {
                packages: strings(&["libssl-dev"]),
                ..PackageManagerBackendConfig::default()
            }),
        }),
        ..PackageManagerConfig::default()
    };
    let findings = validate_manifest(&manifest_of(config), &test_context());
    assert!(messages(&findings)
        .iter()
        .any(|message| message.contains("none for the current OS")));
    assert!(messages(&findings).contains(
        &"warning: manifest defines system packages, but none for the current OS (linux)".to_owned()
    ));
}

#[test]
fn broken_plan_is_reported_as_error() {
    let mut config = SwissConfig::default();
    config.files = vec![FileSpec { dest: "~/.config/x".to_owned(), ..FileSpec::default() }];
    let findings = validate_manifest(&manifest_of(config), &test_context());
    assert!(has_error(&findings));
    assert_eq!(
        findings[0],
        Finding::Error("File entry for '~/.config/x' needs either 'source' or 'content'".to_owned())
    );
}

#[test]
fn empty_manifest_warns_about_an_empty_plan() {
    let findings = validate_manifest(&manifest_of(SwissConfig::default()), &test_context());
    assert_eq!(
        findings,
        vec![Finding::Warning(
            "the plan is empty: the manifest produces no steps on this OS".to_owned()
        )]
    );
}

#[test]
fn unknown_shell_names_are_errors() {
    let mut config = SwissConfig::default();
    config.shells.insert("fish".to_owned(), ShellTargetConfig::default());
    let findings = validate_manifest(&manifest_of(config), &test_context());
    assert!(messages(&findings).contains(&"error: unsupported shell 'fish' in 'shells' section".to_owned()));
}

#[test]
fn installation_checks_list_required_tools_per_os() {
    assert_eq!(
        installation_checks(Os::Linux),
        vec![("nu", false), ("cargo", false), ("rustup", false), ("git", true), ("apt-get", true)]
    );
    assert_eq!(installation_checks(Os::Macos)[4], ("brew", true));
    assert_eq!(installation_checks(Os::Windows)[4], ("scoop", true));
}
