use swiss::expand::{expand_env_vars, expand_path};
use swiss::parser::{
    CargoCustomConfig, CommandSpec, FileSpec, NushellConfig, Os, OsCommands, ShellMode,
    ShellTargetConfig, SwissConfig,
};
use swiss::strmap::StrMap;

#[test]
fn expands_tilde_with_provided_home() {
    let home = "/home/tester";
    let env = StrMap::new();
    assert_eq!(expand_path("~/.config/app.toml", home, &env, Os::Linux), "/home/tester/.config/app.toml");
    assert_eq!(expand_path("~", home, &env, Os::Linux), "/home/tester");
    assert_eq!(expand_path("/etc/hosts", home, &env, Os::Linux), "/etc/hosts");
}

#[test]
fn expands_known_env_vars_and_keeps_unknown() {
    let mut env = StrMap::new();
    env.insert("SWISS_TEST_EXPAND".to_owned(), "value".to_owned());
    assert_eq!(expand_env_vars("a/${SWISS_TEST_EXPAND}/b", &env), "a/value/b");
    assert_eq!(expand_env_vars("a/$SWISS_TEST_EXPAND/b", &env), "a/value/b");
    assert_eq!(
        expand_env_vars("a/${SWISS_TEST_MISSING_VAR}/b", &env),
        "a/${SWISS_TEST_MISSING_VAR}/b"
    );
    assert_eq!(expand_env_vars("price: 5$", &env), "price: 5$");
}

#[test]
fn expanded_home_variable_then_tilde() {
    let mut env = StrMap::new();
    env.insert("DIR".to_owned(), "~/x".to_owned());
    assert_eq!(expand_path("$DIR/y", "/h", &env, Os::Linux), "/h/x/y");
    assert_eq!(expand_env_vars("${unterminated", &env), "${unterminated");
}

#[test]
fn non_ascii_braced_name_keeps_following_text() {
    let env = StrMap::new();
    assert_eq!(expand_env_vars("${\u{e9}}x", &env), "${\u{e9}}x");
    let mut env = StrMap::new();
    env.insert("\u{e9}t\u{e9}".to_owned(), "summer".to_owned());
    assert_eq!(expand_env_vars("${\u{e9}t\u{e9}}/dir", &env), "summer/dir");
}

#[test]
fn windows_home_prefix_with_backslash() {
    let env = StrMap::new();
    assert_eq!(expand_path("~\\AppData\\x", "C:\\Users\\me", &env, Os::Windows), "C:\\Users\\me\\AppData\\x");
    assert_eq!(expand_path("~/x", "C:\\Users\\me\\", &env, Os::Windows), "C:\\Users\\me\\x");
    assert_eq!(expand_path("~\\x", "/home/me", &env, Os::Linux), "~\\x");
}

#[test]
fn command_spec_supports_explicit_shell_and_admin() {
    let install = vec![
        CommandSpec::Plain("plain command".to_owned()),
        CommandSpec::Detailed {
            run: "./configure && make install".to_owned(),
            shell: Some("sh".to_owned()),
            requires_admin: true,
        },
    ];
    assert_eq!(install[0].shell(Os::Linux), "sh");
    assert_eq!(install[0].shell(Os::Windows), "powershell");
    assert!(!install[0].requires_admin());
    assert_eq!(install[1].shell(Os::Linux), "sh");
    assert!(install[1].requires_admin());
    assert_eq!(install[1].run(), "./configure && make install");
    assert!(CommandSpec::Plain("  \n".to_owned()).is_empty());
}

#[test]
fn file_spec_os_gate_filters_other_systems() {
    let spec = FileSpec {
        dest: "~/.swiss/env/macos.nu".to_owned(),
        os: vec!["macos".to_owned()],
        ..FileSpec::default()
    };
    assert!(spec.applies_to(Os::Macos));
    assert!(!spec.applies_to(Os::Linux));

    let unrestricted = FileSpec { dest: "~/.config/x".to_owned(), ..FileSpec::default() };
    assert!(unrestricted.applies_to(Os::Windows));
}

#[test]
fn nushell_section_version_is_optional() {
    let mut pinned = SwissConfig::default();
    pinned.nushell = Some(NushellConfig { version: Some("0.101.0".to_owned()) });
    assert_eq!(pinned.nushell_version(), Some("0.101.0"));
    assert!(pinned.manages_nushell());

    let mut latest = SwissConfig::default();
    latest.nushell = Some(NushellConfig::default());
    assert!(latest.nushell.is_some());
    assert_eq!(latest.nushell_version(), None);
    assert!(latest.manages_nushell());

    let mut absent = SwissConfig::default();
    absent.dependencies.cargo.insert("bat".to_owned(), None);
    assert!(!absent.manages_nushell());

    let mut disabled = SwissConfig::default();
    disabled
        .shells
        .insert("nushell".to_owned(), ShellTargetConfig { enabled: false, ..ShellTargetConfig::default() });
    assert!(!disabled.manages_nushell());
    let mut print_only = SwissConfig::default();
    print_only.shells.insert(
        "nushell".to_owned(),
        ShellTargetConfig { mode: Some(ShellMode::Print), ..ShellTargetConfig::default() },
    );
    assert!(!print_only.manages_nushell());
}

#[test]
fn cargo_package_names_and_gates() {
    let pinned = CargoCustomConfig { version: "1.2.3".to_owned(), ..CargoCustomConfig::default() };
    assert_eq!(pinned.package_name("tool"), "tool@1.2.3");
    assert_eq!(CargoCustomConfig::default().package_name("tool"), "tool");
    let no_windows = CargoCustomConfig { windows: false, ..CargoCustomConfig::default() };
    assert!(!no_windows.is_installable(Os::Windows));
    assert!(no_windows.is_installable(Os::Linux));
}

#[test]
fn macos_post_install_falls_back_to_linux() {
    let hooks = OsCommands {
        linux: Some(vec![CommandSpec::Plain("ln -s a b".to_owned())]),
        ..OsCommands::default()
    };
    assert_eq!(hooks.for_os(Os::Macos).unwrap().len(), 1);
    assert!(hooks.for_os(Os::Windows).is_none());
}
