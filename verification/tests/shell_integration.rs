use swiss::blocks::upsert_block;
use swiss::parser::{EnvValue, Os, ShellMode, ShellModuleSpec, ShellTargetConfig, SwissConfig};
use swiss::persistence::SwissCache;
use swiss::plan::{PlanContext, Step};
use swiss::shellgen::{
    manual_install_warnings, nu_config_hook, nu_env_hook, render_init_script, render_module, shell_package_steps,
    shell_steps, ShellKind, REGISTRATION_BLOCK,
};
use swiss::strmap::StrMap;

fn strings(items: &[&str]) -> Vec<String> {
    items.iter().map(|s| s.to_string()).collect()
}

fn target(mode: Option<ShellMode>, modules: &[&str]) -> ShellTargetConfig {
    ShellTargetConfig { mode, modules: strings(modules), ..ShellTargetConfig::default() }
}

fn shell_config() -> SwissConfig {
    let mut config = SwissConfig::default();
    config.shells.insert(
        "nushell".to_owned(),
        target(Some(ShellMode::ManagedLoader), &["path", "starship", "zoxide"]),
    );
    config.shells.insert(
        "zsh".to_owned(),
        target(Some(ShellMode::Snippet), &["path", "starship", "aliases"]),
    );
    config.shells.insert(
        "bash".to_owned(),
        ShellTargetConfig { enabled: false, ..target(None, &["path"]) },
    );
    config.shells.insert("pwsh".to_owned(), target(Some(ShellMode::Profile), &["path"]));

    let mut path = ShellModuleSpec::default();
    path.env.insert(
        "PATH".to_owned(),
        EnvValue::PathOps { prepend: strings(&["~/.cargo/bin", "~/.local/bin"]), append: vec![] },
    );
    config.shell_modules.insert("path".to_owned(), path);

    let mut starship = ShellModuleSpec::default();
    starship.package = Some("starship".to_owned());
    starship.init.insert(
        "nushell".to_owned(),
        "mkdir ~/.cache/starship; starship init nu | save -f ~/.cache/starship/init.nu".to_owned(),
    );
    starship.init.insert("zsh".to_owned(), "eval \"$(starship init zsh)\"".to_owned());
    config.shell_modules.insert("starship".to_owned(), starship);

    let mut zoxide = ShellModuleSpec::default();
    zoxide.aliases.insert("cdi".to_owned(), "__zoxide_zi".to_owned());
    config.shell_modules.insert("zoxide".to_owned(), zoxide);

    let mut aliases = ShellModuleSpec::default();
    aliases.aliases.insert("ll".to_owned(), "ls -la".to_owned());
    config.shell_modules.insert("aliases".to_owned(), aliases);
    config
}

fn test_context() -> PlanContext {
    PlanContext {
        os: Os::Linux,
        home: "/home/tester".to_owned(),
        base_dir: "/manifests".to_owned(),
        cache: SwissCache::default(),
        nu_installed: false,
        nu_version: None,
        cargo_installed: true,
        binstall_installed: true,
        available_shells: strings(&["zsh", "bash", "pwsh"]),
        env: StrMap::new(),
        templates: StrMap::new(),
    }
}

fn module<'a>(config: &'a SwissConfig, name: &str) -> &'a ShellModuleSpec {
    config.shell_modules.get(name).unwrap()
}

#[test]
fn upsert_block_appends_then_replaces_idempotently() {
    let first = upsert_block("# my zshrc\n", "starship", "eval one");
    assert!(first.contains("# swiss begin: starship"));
    assert!(first.contains("eval one"));
    assert!(first.starts_with("# my zshrc\n"));

    let second = upsert_block(&first, "starship", "eval two");
    assert!(second.contains("eval two"));
    assert!(!second.contains("eval one"));
    assert_eq!(second.matches("# swiss begin: starship").count(), 1);

    // Re-applying identical content changes nothing.
    let third = upsert_block(&second, "starship", "eval two");
    assert_eq!(second, third);
}

#[test]
fn upsert_block_keeps_other_blocks_untouched() {
    let mut content = upsert_block("", "path", "export PATH=x");
    content = upsert_block(&content, "starship", "eval s");
    let updated = upsert_block(&content, "path", "export PATH=y");
    assert!(updated.contains("export PATH=y"));
    assert!(updated.contains("eval s"));
    assert!(!updated.contains("export PATH=x"));
}

#[test]
fn upsert_block_matches_whole_marker_lines_only() {
    let content = upsert_block("", "path2", "keep me");
    let content = upsert_block(&content, "path", "export PATH=x");
    let updated = upsert_block(&content, "path", "export PATH=y");
    assert_eq!(
        updated,
        "# swiss begin: path2\nkeep me\n# swiss end: path2\n\n# swiss begin: path\nexport PATH=y\n# swiss end: path\n"
    );
    assert_eq!(upsert_block(&updated, "path", "export PATH=y"), updated);
}

#[test]
fn upsert_block_replaces_in_place_between_user_lines() {
    let existing = "top\n# swiss begin: p\nold\n# swiss end: p\nbottom";
    assert_eq!(upsert_block(existing, "p", "new"), "top\n# swiss begin: p\nnew\n# swiss end: p\nbottom");
}

#[test]
fn upsert_block_is_stable_when_end_marker_text_ends_a_longer_name() {
    let existing = "# swiss begin: starship\nfoo\n# swiss end: starship2\n";
    let once = upsert_block(existing, "starship", "x");
    assert_eq!(once, "# swiss begin: starship\nx\n# swiss end: starship\n");
    assert_eq!(upsert_block(&once, "starship", "x"), once);
}

#[test]
fn upsert_block_replaces_after_text_without_line_break() {
    let existing = "abc# swiss begin: p\nold\n# swiss end: p\ntail";
    assert_eq!(upsert_block(existing, "p", "new"), "abc# swiss begin: p\nnew\n# swiss end: p\ntail");
}

#[test]
fn upsert_block_exact_layout() {
    assert_eq!(
        upsert_block("a", "b", "c"),
        "a\n\n# swiss begin: b\nc\n# swiss end: b\n"
    );
}

#[test]
fn zsh_module_renders_path_aliases_and_init() {
    let config = shell_config();
    let path = render_module(ShellKind::Zsh, module(&config, "path")).unwrap();
    assert_eq!(path.trim(), "export PATH=\"$HOME/.cargo/bin:$HOME/.local/bin:$PATH\"");

    let starship = render_module(ShellKind::Zsh, module(&config, "starship")).unwrap();
    assert_eq!(starship.trim(), "eval \"$(starship init zsh)\"");

    let aliases = render_module(ShellKind::Zsh, module(&config, "aliases")).unwrap();
    assert_eq!(aliases.trim(), "alias ll='ls -la'");
}

#[test]
fn pwsh_module_renders_env_and_functions() {
    let config = shell_config();
    let path = render_module(ShellKind::Pwsh, module(&config, "path")).unwrap();
    assert!(path.contains("$env:PATH = \"$HOME/.cargo/bin\" + [IO.Path]::PathSeparator + $env:PATH"));

    let aliases = render_module(ShellKind::Pwsh, module(&config, "aliases")).unwrap();
    assert_eq!(aliases.trim(), "function ll { ls -la @args }");
}

#[test]
fn nushell_module_renders_path_pipeline() {
    let config = shell_config();
    let path = render_module(ShellKind::Nushell, module(&config, "path")).unwrap();
    assert_eq!(
        path.trim(),
        "$env.PATH = ($env.PATH | prepend [\"~/.cargo/bin\", \"~/.local/bin\"])"
    );
}

#[test]
fn snippet_shells_get_one_registration_block_only() {
    let config = shell_config();
    let steps = shell_steps(&config, &test_context()).unwrap();

    // bash is disabled: no patch against ~/.bashrc
    assert!(!steps.iter().any(|step| matches!(
        step,
        Step::PatchBlock { target, .. } if target == "~/.bashrc"
    )));

    // No init files are written: only the registration block lands on disk.
    assert!(!steps.iter().any(|step| matches!(
        step,
        Step::WriteFile { path, .. } if !path.ends_with(".nu")
    )));

    // zsh: a single bounded block in ~/.zshrc that evals `swiss init`.
    let zshrc_patches: Vec<&Step> = steps
        .iter()
        .filter(|step| matches!(step, Step::PatchBlock { target, .. } if target == "~/.zshrc"))
        .collect();
    assert_eq!(zshrc_patches.len(), 1);
    match zshrc_patches[0] {
        Step::PatchBlock { block, content, .. } => {
            assert_eq!(block, REGISTRATION_BLOCK);
            assert!(content.contains("eval \"$(swiss init --shell zsh)\""));
            // cargo bin first, so a fresh shell finds the swiss binary.
            assert!(content.find(".cargo/bin").unwrap() < content.find("swiss init").unwrap());
        }
        _ => unreachable!(),
    }

    // pwsh defaults to $PROFILE.
    assert!(steps.iter().any(|step| matches!(
        step,
        Step::PatchBlock { target, content, .. }
            if target == "$PROFILE" && content.contains("swiss init --shell pwsh")
    )));
}

#[test]
fn nushell_registration_writes_placeholder_and_configures_nu() {
    let config = shell_config();
    let steps = shell_steps(&config, &test_context()).unwrap();

    assert!(steps.iter().any(|step| matches!(
        step,
        Step::WriteFile { path, overwrite: false, .. } if path.ends_with(".config/swiss/init.nu")
    )));
    assert!(steps.contains(&Step::ConfigureNu));

    let env_hook = nu_env_hook();
    assert!(env_hook.find(".cargo").unwrap() < env_hook.find("swiss init").unwrap());
    assert!(env_hook.contains("swiss init --shell nushell"));
    assert!(nu_config_hook().contains("source ~/.config/swiss/init.nu"));
}

#[test]
fn nushell_snippet_mode_is_rejected() {
    let mut config = SwissConfig::default();
    config.shells.insert("nushell".to_owned(), target(Some(ShellMode::Snippet), &[]));
    let error = shell_steps(&config, &test_context()).unwrap_err();
    assert!(error.message().contains("managed-loader"));
}

#[test]
fn render_init_script_includes_modules_and_cached_aliases() {
    let config = shell_config();
    let mut aliases = StrMap::new();
    aliases.insert("cdi".to_owned(), "__zoxide_zi".to_owned());

    let script = render_init_script(
        &config,
        ShellKind::Zsh,
        &strings(&["path", "starship"]),
        &aliases,
    )
    .unwrap();
    assert!(script.starts_with("# Generated by swiss init --shell zsh"));
    assert!(script.contains("export SWISS_VERSION="));
    assert!(script.contains("export PATH=\"$HOME/.cargo/bin:$HOME/.local/bin:$PATH\""));
    assert!(script.contains("eval \"$(starship init zsh)\""));
    assert!(script.contains("# swiss begin: swiss-aliases"));
    assert!(script.contains("alias cdi='__zoxide_zi'"));

    let script = render_init_script(&config, ShellKind::Nushell, &strings(&["path"]), &aliases).unwrap();
    assert!(script.contains("$env.SWISS_VERSION = "));
    assert!(script.contains("$env.PATH = ($env.PATH | prepend"));
    assert!(script.contains("alias cdi = __zoxide_zi"));

    let script = render_init_script(&SwissConfig::default(), ShellKind::Bash, &vec![], &StrMap::new()).unwrap();
    assert!(script.contains("export SWISS_VERSION="));
}

#[test]
fn service_host_without_shells_generates_no_shell_steps() {
    let mut config = SwissConfig::default();
    config.dependencies.cargo.insert("ripgrep".to_owned(), None);
    let steps = shell_steps(&config, &test_context()).unwrap();
    assert!(steps.is_empty());
}

#[test]
fn unknown_module_reference_fails() {
    let mut config = SwissConfig::default();
    config.shells.insert("zsh".to_owned(), target(None, &["ghost"]));
    let error = shell_steps(&config, &test_context()).unwrap_err();
    assert!(error.message().contains("ghost"));
}

#[test]
fn missing_enabled_zsh_is_installed_before_configuration() {
    let config = shell_config();
    let mut context = test_context();
    context.nu_installed = true;
    context.available_shells.clear();

    let steps = shell_package_steps(&config, &context).unwrap();
    assert_eq!(
        steps,
        vec![Step::Command {
            program: "sudo".to_owned(),
            args: strings(&["apt-get", "install", "-y", "zsh"]),
            cwd: None,
            requires_admin: true,
        }]
    );
}

#[test]
fn present_shells_are_not_reinstalled() {
    let config = shell_config();
    let mut context = test_context();
    context.nu_installed = true;
    let steps = shell_package_steps(&config, &context).unwrap();
    assert!(steps.is_empty());
}

#[test]
fn nushell_never_installs_through_the_system_package_manager() {
    let mut config = SwissConfig::default();
    config.shells.insert("nushell".to_owned(), target(Some(ShellMode::ManagedLoader), &[]));
    assert!(shell_package_steps(&config, &test_context()).unwrap().is_empty());
}

#[test]
fn pwsh_on_macos_installs_through_brew_cask() {
    let mut config = SwissConfig::default();
    config.shells.insert("pwsh".to_owned(), target(None, &[]));
    let mut context = test_context();
    context.os = Os::Macos;
    context.available_shells.clear();
    assert_eq!(
        shell_package_steps(&config, &context).unwrap(),
        vec![Step::Command {
            program: "brew".to_owned(),
            args: strings(&["install", "--cask", "powershell"]),
            cwd: None,
            requires_admin: false,
        }]
    );
}

#[test]
fn registration_lines_are_safe_when_swiss_is_missing() {
    assert!(ShellKind::Zsh
        .registration_line()
        .unwrap()
        .contains("command -v swiss >/dev/null"));
    assert!(ShellKind::Pwsh
        .registration_line()
        .unwrap()
        .contains("Get-Command swiss -ErrorAction SilentlyContinue"));
    assert!(ShellKind::Nushell.registration_line().is_none());
    assert!(nu_env_hook().contains("try {"));
}

#[test]
fn shells_without_a_package_are_reported_for_manual_install() {
    let mut config = SwissConfig::default();
    config.shells.insert("pwsh".to_owned(), target(None, &[]));
    config.shells.insert("zsh".to_owned(), target(None, &[]));
    let mut context = test_context();
    context.available_shells.clear();
    assert_eq!(
        manual_install_warnings(&config, &context),
        vec!["Shell 'pwsh' is enabled in the manifest but not installed, and Swiss cannot install it automatically on linux; install it manually".to_owned()]
    );
    assert_eq!(shell_package_steps(&config, &context).unwrap().len(), 1);
    context.available_shells = strings(&["pwsh"]);
    assert!(manual_install_warnings(&config, &context).is_empty());
}

#[test]
fn module_with_only_empty_path_edits_renders_nothing() {
    let mut spec = ShellModuleSpec::default();
    spec.env.insert("PATH".to_owned(), EnvValue::PathOps { prepend: vec![], append: vec![] });
    spec.init.insert("bash".to_owned(), "eval x".to_owned());
    assert_eq!(render_module(ShellKind::Zsh, &spec), None);
    assert_eq!(render_module(ShellKind::Bash, &spec), Some("eval x\n".to_owned()));
}
