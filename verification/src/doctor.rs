//! `swiss doctor`: manifest validation findings and the tools to check.
use crate::config_loader::LoadedManifest;
use crate::error::error_message;
use crate::parser::{CommandSpec, Os, SwissConfig, os_name};
use crate::plan::{PlanContext, build_plan, plan_view};
use crate::shellgen::{ShellKind, kind_from_name};
use crate::strmap::has_key;
use crate::text;
use crate::text::{str_eq, strs_view, to_owned};
use vstd::prelude::*;

verus! {

/// The command shells a manifest may name, as listed in messages.
pub const SUPPORTED_COMMAND_SHELLS: &'static str = "nu, nushell, sh, bash, zsh, pwsh, powershell, cmd";

/// Whether a command shell is one Swiss can run.
pub open spec fn is_supported_shell(s: Seq<char>) -> bool {
    ||| s == "nu"@
    ||| s == "nushell"@
    ||| s == "sh"@
    ||| s == "bash"@
    ||| s == "zsh"@
    ||| s == "pwsh"@
    ||| s == "powershell"@
    ||| s == "cmd"@
}

/// Whether a command shell is Nushell.
pub open spec fn is_nu_shell(s: Seq<char>) -> bool {
    s == "nu"@ || s == "nushell"@
}

fn supported_command_shell(s: &str) -> (r: bool)
    ensures
        r == is_supported_shell(s@),
{
    str_eq(s, "nu") || str_eq(s, "nushell") || str_eq(s, "sh") || str_eq(s, "bash") || str_eq(s, "zsh")
        || str_eq(s, "pwsh") || str_eq(s, "powershell") || str_eq(s, "cmd")
}

/// One diagnostic finding about a manifest.
#[derive(Debug, Clone, PartialEq)]
pub enum Finding {
    Error(String),
    Warning(String),
}

/// A finding with its message taken by its view.
pub enum FindingView {
    Error(Seq<char>),
    Warning(Seq<char>),
}

impl View for Finding {
    type V = FindingView;

    open spec fn view(&self) -> FindingView {
        match self {
            Finding::Error(m) => FindingView::Error(m@),
            Finding::Warning(m) => FindingView::Warning(m@),
        }
    }
}

/// The views of a sequence of findings.
pub open spec fn findings_view(s: Seq<Finding>) -> Seq<FindingView> {
    s.map_values(|f: Finding| f@)
}

/// `error: <message>` or `warning: <message>`.
pub open spec fn describe_finding(f: FindingView) -> Seq<char> {
    match f {
        FindingView::Error(m) => "error: "@ + m,
        FindingView::Warning(m) => "warning: "@ + m,
    }
}

impl Finding {
    pub fn is_error(&self) -> (r: bool)
        ensures
            r == (self@ is Error),
    {
        match self {
            Finding::Error(_) => true,
            Finding::Warning(_) => false,
        }
    }

    /// The line printed for the finding.
    pub fn describe(&self) -> (r: String)
        ensures
            r@ == describe_finding(self@),
    {
        match self {
            Finding::Error(m) => {
                let mut r = to_owned("error: ");
                r.append(m.as_str());
                r
            },
            Finding::Warning(m) => {
                let mut r = to_owned("warning: ");
                r.append(m.as_str());
                r
            },
        }
    }
}

/// Every command of a list, paired with one label.
pub open spec fn label_all(label: Seq<char>, cmds: Seq<CommandSpec>) -> Seq<(Seq<char>, CommandSpec)> {
    cmds.map_values(|c: CommandSpec| (label, c))
}

/// The commands of an optional list.
pub open spec fn opt_cmds(o: Option<Vec<CommandSpec>>) -> Seq<CommandSpec> {
    match o {
        Some(v) => v@,
        None => Seq::empty(),
    }
}

/// Label of the commands of a cargo dependency.
pub open spec fn cargo_label(name: Seq<char>) -> Seq<char> {
    "cargo dependency '"@ + name + "'"@
}

/// Label of the commands of a custom dependency.
pub open spec fn custom_label(name: Seq<char>) -> Seq<char> {
    "custom dependency '"@ + name + "'"@
}

/// The post-install commands of every OS: linux, macos, then windows.
pub open spec fn hook_cmds(o: Option<crate::parser::OsCommands>) -> Seq<CommandSpec> {
    match o {
        Some(h) => opt_cmds(h.linux) + opt_cmds(h.macos) + opt_cmds(h.windows),
        None => Seq::empty(),
    }
}

/// The commands of the cargo dependencies, in key order.
pub open spec fn cargo_commands_view(
    entries: Seq<(String, Option<crate::parser::CargoCustomConfig>)>,
) -> Seq<(Seq<char>, CommandSpec)>
    decreases entries.len(),
{
    if entries.len() == 0 {
        Seq::empty()
    } else {
        cargo_commands_view(entries.drop_last()) + match entries.last().1 {
            Some(c) => label_all(cargo_label(entries.last().0@), c.commands@),
            None => Seq::empty(),
        }
    }
}

/// The commands of the custom dependencies: install, update, then the
/// post-install hooks, in key order.
pub open spec fn custom_commands_view(
    entries: Seq<(String, crate::parser::CustomDependency)>,
) -> Seq<(Seq<char>, CommandSpec)>
    decreases entries.len(),
{
    if entries.len() == 0 {
        Seq::empty()
    } else {
        let d = entries.last().1;
        custom_commands_view(entries.drop_last()) + label_all(
            custom_label(entries.last().0@),
            opt_cmds(d.install) + opt_cmds(d.update) + hook_cmds(d.post_install),
        )
    }
}

/// Every command of the manifest with a human label.
pub open spec fn all_commands_view(config: SwissConfig) -> Seq<(Seq<char>, CommandSpec)> {
    cargo_commands_view(config.dependencies.cargo.entries@) + custom_commands_view(
        config.dependencies.customs.entries@,
    )
}

/// Labeled commands with their labels taken by view.
pub open spec fn labeled_view(s: Seq<(String, CommandSpec)>) -> Seq<(Seq<char>, CommandSpec)> {
    s.map_values(|e: (String, CommandSpec)| (e.0@, e.1))
}

fn push_labeled(out: &mut Vec<(String, CommandSpec)>, label: &str, cmds: &Vec<CommandSpec>)
    ensures
        labeled_view(final(out)@) == labeled_view(old(out)@) + label_all(label@, cmds@),
{
    let ghost start = out@;
    let mut i: usize = 0;
    assert(labeled_view(out@) =~= labeled_view(start) + label_all(label@, cmds@.take(0)));
    while i < cmds.len()
        invariant
            i <= cmds@.len(),
            labeled_view(out@) == labeled_view(start) + label_all(label@, cmds@.take(i as int)),
        decreases cmds.len() - i,
    {
        let c = cmds[i].clone();
        let l = to_owned(label);
        assert(c == cmds@[i as int]);
        let ghost before = out@;
        out.push((l, c));
        assert(out@ == before.push((l, c)));
        assert(label_all(label@, cmds@.take(i + 1)) =~= label_all(label@, cmds@.take(i as int)).push((label@, c)));
        assert(labeled_view(out@) =~= labeled_view(before).push((label@, c)));
        assert(labeled_view(out@) =~= labeled_view(start) + label_all(label@, cmds@.take(i + 1)));
        i = i + 1;
    }
    assert(cmds@.take(cmds@.len() as int) == cmds@);
}

fn push_opt_labeled(out: &mut Vec<(String, CommandSpec)>, label: &str, cmds: &Option<Vec<CommandSpec>>)
    ensures
        labeled_view(final(out)@) == labeled_view(old(out)@) + label_all(label@, opt_cmds(*cmds)),
{
    match cmds {
        Some(v) => push_labeled(out, label, v),
        None => {
            assert(labeled_view(out@) =~= labeled_view(out@) + label_all(label@, Seq::empty()));
        },
    }
}

/// Collects every command in the manifest together with a human label.
pub fn all_commands(config: &SwissConfig) -> (r: Vec<(String, CommandSpec)>)
    ensures
        labeled_view(r@) == all_commands_view(*config),
{
    let mut commands: Vec<(String, CommandSpec)> = Vec::new();
    let ghost cargo = config.dependencies.cargo.entries@;
    let mut i: usize = 0;
    assert(labeled_view(commands@) =~= cargo_commands_view(cargo.take(0)));
    while i < config.dependencies.cargo.entries.len()
        invariant
            cargo == config.dependencies.cargo.entries@,
            i <= cargo.len(),
            labeled_view(commands@) == cargo_commands_view(cargo.take(i as int)),
        decreases config.dependencies.cargo.entries.len() - i,
    {
        proof {
            let t = cargo.take(i + 1);
            assert(t.drop_last() == cargo.take(i as int));
            assert(t.last() == cargo[i as int]);
        }
        match &config.dependencies.cargo.entries[i].1 {
            Some(c) => {
                let mut label = to_owned("cargo dependency '");
                label.append(config.dependencies.cargo.entries[i].0.as_str());
                label.append("'");
                push_labeled(&mut commands, label.as_str(), &c.commands);
            },
            None => {
                assert(labeled_view(commands@) =~= labeled_view(commands@) + Seq::empty());
            },
        }
        i = i + 1;
    }
    assert(cargo.take(cargo.len() as int) == cargo);
    let ghost first = labeled_view(commands@);
    let ghost customs = config.dependencies.customs.entries@;
    let mut j: usize = 0;
    assert(labeled_view(commands@) =~= first + custom_commands_view(customs.take(0)));
    while j < config.dependencies.customs.entries.len()
        invariant
            customs == config.dependencies.customs.entries@,
            j <= customs.len(),
            labeled_view(commands@) == first + custom_commands_view(customs.take(j as int)),
        decreases config.dependencies.customs.entries.len() - j,
    {
        proof {
            let t = customs.take(j + 1);
            assert(t.drop_last() == customs.take(j as int));
            assert(t.last() == customs[j as int]);
        }
        let ghost before = labeled_view(commands@);
        let dep = &config.dependencies.customs.entries[j].1;
        let mut label = to_owned("custom dependency '");
        label.append(config.dependencies.customs.entries[j].0.as_str());
        label.append("'");
        push_opt_labeled(&mut commands, label.as_str(), &dep.install);
        push_opt_labeled(&mut commands, label.as_str(), &dep.update);
        match &dep.post_install {
            Some(h) => {
                push_opt_labeled(&mut commands, label.as_str(), &h.linux);
                push_opt_labeled(&mut commands, label.as_str(), &h.macos);
                push_opt_labeled(&mut commands, label.as_str(), &h.windows);
            },
            None => {},
        }
        assert(labeled_view(commands@) =~= before + label_all(
            label@,
            opt_cmds(dep.install) + opt_cmds(dep.update) + hook_cmds(dep.post_install),
        ));
        assert(labeled_view(commands@) =~= first + custom_commands_view(customs.take(j + 1)));
        j = j + 1;
    }
    assert(customs.take(customs.len() as int) == customs);
    commands
}

/// Whether any of the three system package lists holds `package`.
pub open spec fn backend_has(b: Option<crate::parser::PackageManagerBackendConfig>, package: Seq<char>) -> bool {
    match b {
        Some(b) => strs_view(b.packages@).contains(package),
        None => false,
    }
}

/// Whether anything in the manifest installs `package`: a cargo or custom
/// dependency, or a system package on any OS.
pub open spec fn package_declared_view(config: SwissConfig, package: Seq<char>) -> bool {
    ||| has_key(config.dependencies.cargo.entries@, package)
    ||| has_key(config.dependencies.customs.entries@, package)
    ||| backend_has(crate::plan::backend_of(config.package_manager, Os::Linux), package)
    ||| backend_has(crate::plan::backend_of(config.package_manager, Os::Macos), package)
    ||| backend_has(crate::plan::backend_of(config.package_manager, Os::Windows), package)
}

fn backend_contains(b: Option<&crate::parser::PackageManagerBackendConfig>, package: &str) -> (r: bool)
    ensures
        r == match b {
            Some(b) => strs_view(b.packages@).contains(package@),
            None => false,
        },
{
    match b {
        Some(b) => text::contains_string(&b.packages, package),
        None => false,
    }
}

/// Whether anything in the manifest installs `package`.
pub fn package_is_declared(config: &SwissConfig, package: &str) -> (r: bool)
    ensures
        r == package_declared_view(*config, package@),
{
    if config.dependencies.cargo.contains_key(package) || config.dependencies.customs.contains_key(package) {
        return true;
    }
    let linux = match &config.package_manager.linux {
        Some(l) => l.apt.as_ref(),
        None => None,
    };
    let macos = match &config.package_manager.macos {
        Some(m) => m.brew.as_ref(),
        None => None,
    };
    let windows = match &config.package_manager.windows {
        Some(w) => w.scoop.as_ref(),
        None => None,
    };
    backend_contains(linux, package) || backend_contains(macos, package) || backend_contains(windows, package)
}

/// Message for a command run through an unsupported shell.
pub open spec fn unsupported_command_message(label: Seq<char>, shell: Seq<char>) -> Seq<char> {
    "'"@ + label + "' uses unsupported command shell '"@ + shell + "' (supported: "@
        + SUPPORTED_COMMAND_SHELLS@ + ")"@
}

/// Warning for Nushell commands with nothing installing Nushell.
pub const NU_NOT_MANAGED: &'static str =
    "manifest runs commands through Nushell but neither a 'nushell' section nor an enabled nushell shell installs it; nu must already be on the host";

/// Warning for a manifest whose plan has no step.
pub const EMPTY_PLAN: &'static str = "the plan is empty: the manifest produces no steps on this OS";

/// One error per command whose shell is unsupported, in order.
pub open spec fn shell_findings(cmds: Seq<(Seq<char>, CommandSpec)>, os: Os) -> Seq<FindingView>
    decreases cmds.len(),
{
    if cmds.len() == 0 {
        Seq::empty()
    } else {
        let (label, c) = cmds.last();
        shell_findings(cmds.drop_last(), os) + if is_supported_shell(c.shell_view(os)) {
            Seq::empty()
        } else {
            seq![FindingView::Error(unsupported_command_message(label, c.shell_view(os)))]
        }
    }
}

/// Whether some command runs through Nushell.
pub open spec fn uses_nu(cmds: Seq<(Seq<char>, CommandSpec)>, os: Os) -> bool {
    exists|i: int| 0 <= i < cmds.len() && is_nu_shell(#[trigger] cmds[i].1.shell_view(os))
}

/// One error per `shells` key Swiss does not know.
pub open spec fn unknown_shell_findings(keys: Seq<Seq<char>>) -> Seq<FindingView>
    decreases keys.len(),
{
    if keys.len() == 0 {
        Seq::empty()
    } else {
        unknown_shell_findings(keys.drop_last()) + if kind_from_name(keys.last()) is Some {
            Seq::empty()
        } else {
            seq![FindingView::Error("unsupported shell '"@ + keys.last() + "' in 'shells' section"@)]
        }
    }
}

/// The findings of one shell module: an undeclared package, then init
/// entries for unknown shells.
pub open spec fn module_findings(config: SwissConfig, name: Seq<char>, m: crate::parser::ShellModuleSpec) -> Seq<FindingView> {
    (match m.package {
        Some(p) => if package_declared_view(config, p@) {
            Seq::empty()
        } else {
            seq![
                FindingView::Warning(
                    "shell module '"@ + name + "' references package '"@ + p@
                        + "', but no dependency or package_manager section installs it"@,
                ),
            ]
        },
        None => Seq::empty(),
    }) + init_findings(name, crate::strmap::keys_of(m.init.entries@))
}

/// One warning per init entry naming an unknown shell.
pub open spec fn init_findings(name: Seq<char>, keys: Seq<Seq<char>>) -> Seq<FindingView>
    decreases keys.len(),
{
    if keys.len() == 0 {
        Seq::empty()
    } else {
        init_findings(name, keys.drop_last()) + if kind_from_name(keys.last()) is Some {
            Seq::empty()
        } else {
            seq![
                FindingView::Warning(
                    "shell module '"@ + name + "' has an init entry for unknown shell '"@ + keys.last() + "'"@,
                ),
            ]
        }
    }
}

/// The findings of every shell module, in key order.
pub open spec fn modules_findings(config: SwissConfig, entries: Seq<(String, crate::parser::ShellModuleSpec)>) -> Seq<FindingView>
    decreases entries.len(),
{
    if entries.len() == 0 {
        Seq::empty()
    } else {
        modules_findings(config, entries.drop_last()) + module_findings(
            config,
            entries.last().0@,
            entries.last().1,
        )
    }
}

/// A warning when system packages exist for other OSes but not for `os`.
pub open spec fn pm_findings(config: SwissConfig, os: Os) -> Seq<FindingView> {
    let pm = config.package_manager;
    let here = match os {
        Os::Linux => pm.linux is Some,
        Os::Macos => pm.macos is Some,
        Os::Windows => pm.windows is Some,
    };
    let anywhere = pm.linux is Some || pm.macos is Some || pm.windows is Some;
    if !here && anywhere {
        seq![
            FindingView::Warning(
                "manifest defines system packages, but none for the current OS ("@ + os_name(os) + ")"@,
            ),
        ]
    } else {
        Seq::empty()
    }
}

/// Static lint findings of a manifest on `os`, in order: unsupported command
/// shells, Nushell commands without Nushell, unknown shells, shell module
/// problems, and system packages missing for `os`.
pub open spec fn lint_view(config: SwissConfig, os: Os) -> Seq<FindingView> {
    let cmds = all_commands_view(config);
    shell_findings(cmds, os) + (if uses_nu(cmds, os) && !config.manages_nushell_view() {
        seq![FindingView::Warning(NU_NOT_MANAGED@)]
    } else {
        Seq::empty()
    }) + unknown_shell_findings(crate::strmap::keys_of(config.shells.entries@)) + modules_findings(
        config,
        config.shell_modules.entries@,
    ) + pm_findings(config, os)
}

/// Appends one finding.
fn push_finding(out: &mut Vec<Finding>, f: Finding)
    ensures
        findings_view(final(out)@) == findings_view(old(out)@).push(f@),
{
    let ghost before = out@;
    out.push(f);
    assert(findings_view(out@) =~= findings_view(before).push(f@));
}

fn lint_shells(cmds: &Vec<(String, CommandSpec)>, os: Os, out: &mut Vec<Finding>) -> (nu: bool)
    ensures
        findings_view(final(out)@) == findings_view(old(out)@) + shell_findings(labeled_view(cmds@), os),
        nu == uses_nu(labeled_view(cmds@), os),
{
    let ghost start = findings_view(out@);
    let ghost all = labeled_view(cmds@);
    let mut nu = false;
    let mut i: usize = 0;
    assert(findings_view(out@) =~= start + shell_findings(all.take(0), os));
    while i < cmds.len()
        invariant
            all == labeled_view(cmds@),
            i <= cmds@.len(),
            findings_view(out@) == start + shell_findings(all.take(i as int), os),
            nu == exists|j: int| 0 <= j < i && is_nu_shell(#[trigger] all[j].1.shell_view(os)),
        decreases cmds.len() - i,
    {
        proof {
            let t = all.take(i + 1);
            assert(t.drop_last() == all.take(i as int));
            assert(t.last() == all[i as int]);
        }
        let shell = cmds[i].1.shell(os);
        if !supported_command_shell(shell) {
            let mut m = to_owned("'");
            m.append(cmds[i].0.as_str());
            m.append("' uses unsupported command shell '");
            m.append(shell);
            m.append("' (supported: ");
            m.append(SUPPORTED_COMMAND_SHELLS);
            m.append(")");
            push_finding(out, Finding::Error(m));
        }
        assert(findings_view(out@) =~= start + shell_findings(all.take(i + 1), os));
        if str_eq(shell, "nu") || str_eq(shell, "nushell") {
            nu = true;
        }
        i = i + 1;
    }
    assert(all.take(all.len() as int) == all);
    nu
}

/// Whether `name` is a shell Swiss knows.
fn known_shell(name: &str) -> (r: bool)
    ensures
        r == (kind_from_name(name@) is Some),
{
    match ShellKind::from_name(name) {
        Some(_) => true,
        None => false,
    }
}

fn lint_unknown_shells<T>(entries: &Vec<(String, T)>, out: &mut Vec<Finding>)
    ensures
        findings_view(final(out)@) == findings_view(old(out)@) + unknown_shell_findings(
            crate::strmap::keys_of(entries@),
        ),
{
    let ghost start = findings_view(out@);
    let ghost keys = crate::strmap::keys_of(entries@);
    let mut i: usize = 0;
    assert(findings_view(out@) =~= start + unknown_shell_findings(keys.take(0)));
    while i < entries.len()
        invariant
            keys == crate::strmap::keys_of(entries@),
            i <= entries@.len(),
            findings_view(out@) == start + unknown_shell_findings(keys.take(i as int)),
        decreases entries.len() - i,
    {
        proof {
            let t = keys.take(i + 1);
            assert(t.drop_last() == keys.take(i as int));
            assert(t.last() == entries@[i as int].0@);
        }
        let name = entries[i].0.as_str();
        if !known_shell(name) {
            let mut m = to_owned("unsupported shell '");
            m.append(name);
            m.append("' in 'shells' section");
            push_finding(out, Finding::Error(m));
        }
        assert(findings_view(out@) =~= start + unknown_shell_findings(keys.take(i + 1)));
        i = i + 1;
    }
    assert(keys.take(keys.len() as int) == keys);
}

fn lint_module(config: &SwissConfig, name: &str, m: &crate::parser::ShellModuleSpec, out: &mut Vec<Finding>)
    ensures
        findings_view(final(out)@) == findings_view(old(out)@) + module_findings(*config, name@, *m),
{
    let ghost start = findings_view(out@);
    match &m.package {
        Some(p) => {
            if !package_is_declared(config, p.as_str()) {
                let mut msg = to_owned("shell module '");
                msg.append(name);
                msg.append("' references package '");
                msg.append(p.as_str());
                msg.append("', but no dependency or package_manager section installs it");
                push_finding(out, Finding::Warning(msg));
            }
        },
        None => {},
    }
    let ghost mid = findings_view(out@);
    let ghost keys = crate::strmap::keys_of(m.init.entries@);
    let mut i: usize = 0;
    assert(findings_view(out@) =~= mid + init_findings(name@, keys.take(0)));
    while i < m.init.entries.len()
        invariant
            keys == crate::strmap::keys_of(m.init.entries@),
            i <= keys.len(),
            findings_view(out@) == mid + init_findings(name@, keys.take(i as int)),
        decreases m.init.entries.len() - i,
    {
        proof {
            let t = keys.take(i + 1);
            assert(t.drop_last() == keys.take(i as int));
            assert(t.last() == m.init.entries@[i as int].0@);
        }
        let shell = m.init.entries[i].0.as_str();
        if !known_shell(shell) {
            let mut msg = to_owned("shell module '");
            msg.append(name);
            msg.append("' has an init entry for unknown shell '");
            msg.append(shell);
            msg.append("'");
            push_finding(out, Finding::Warning(msg));
        }
        assert(findings_view(out@) =~= mid + init_findings(name@, keys.take(i + 1)));
        i = i + 1;
    }
    assert(keys.take(keys.len() as int) == keys);
    assert(findings_view(out@) =~= start + module_findings(*config, name@, *m));
}

/// Static lint findings of a manifest (see [`lint_view`]).
pub fn lint_config(config: &SwissConfig, os: Os) -> (r: Vec<Finding>)
    ensures
        findings_view(r@) == lint_view(*config, os),
{
    let mut findings: Vec<Finding> = Vec::new();
    let cmds = all_commands(config);
    let nu = lint_shells(&cmds, os, &mut findings);
    if nu && !config.manages_nushell() {
        push_finding(&mut findings, Finding::Warning(to_owned(NU_NOT_MANAGED)));
    }
    let ghost after_nu = findings_view(findings@);
    lint_unknown_shells(&config.shells.entries, &mut findings);
    let ghost mid = findings_view(findings@);
    let ghost mods = config.shell_modules.entries@;
    let mut i: usize = 0;
    assert(findings_view(findings@) =~= mid + modules_findings(*config, mods.take(0)));
    while i < config.shell_modules.entries.len()
        invariant
            mods == config.shell_modules.entries@,
            i <= mods.len(),
            findings_view(findings@) == mid + modules_findings(*config, mods.take(i as int)),
        decreases config.shell_modules.entries.len() - i,
    {
        proof {
            let t = mods.take(i + 1);
            assert(t.drop_last() == mods.take(i as int));
            assert(t.last() == mods[i as int]);
        }
        lint_module(config, config.shell_modules.entries[i].0.as_str(), &config.shell_modules.entries[i].1, &mut findings);
        assert(findings_view(findings@) =~= mid + modules_findings(*config, mods.take(i + 1)));
        i = i + 1;
    }
    assert(mods.take(mods.len() as int) == mods);
    let pm = &config.package_manager;
    let here = match os {
        Os::Linux => pm.linux.is_some(),
        Os::Macos => pm.macos.is_some(),
        Os::Windows => pm.windows.is_some(),
    };
    let anywhere = pm.linux.is_some() || pm.macos.is_some() || pm.windows.is_some();
    if !here && anywhere {
        let mut msg = to_owned("manifest defines system packages, but none for the current OS (");
        msg.append(os.name());
        msg.append(")");
        push_finding(&mut findings, Finding::Warning(msg));
    }
    assert(findings_view(findings@) =~= lint_view(*config, os));
    findings
}

/// The findings of `swiss doctor -m`: the plan's error (or a warning for an
/// empty plan), then the static lint findings.
pub open spec fn validate_view(config: SwissConfig, ctx: PlanContext) -> Seq<FindingView> {
    (match plan_view(config, ctx) {
        Ok(steps) => if steps.len() == 0 {
            seq![FindingView::Warning(EMPTY_PLAN@)]
        } else {
            Seq::empty()
        },
        Err(e) => seq![FindingView::Error(error_message(e))],
    }) + lint_view(config, ctx.os)
}

/// Validates a loaded manifest: builds the plan (which checks env
/// requirements, file templates and shell module references) and adds
/// static lint findings on top.
pub fn validate_manifest(manifest: &LoadedManifest, context: &PlanContext) -> (r: Vec<Finding>)
    ensures
        findings_view(r@) == validate_view(manifest.config, *context),
{
    let mut findings: Vec<Finding> = Vec::new();
    match build_plan(manifest, context) {
        Ok(plan) => {
            if plan.is_empty() {
                push_finding(&mut findings, Finding::Warning(to_owned(EMPTY_PLAN)));
            }
        },
        Err(error) => {
            push_finding(&mut findings, Finding::Error(error.message()));
        },
    }
    let ghost first = findings_view(findings@);
    let lint = lint_config(&manifest.config, context.os);
    let ghost l = lint@;
    let mut lint = lint;
    findings.append(&mut lint);
    assert(findings_view(findings@) =~= first + findings_view(l));
    findings
}

/// The tools `swiss doctor` checks on `os`, each with whether it is
/// required. The others are bootstrapped by `swiss apply` when needed.
pub open spec fn installation_checks_view(os: Os) -> Seq<(Seq<char>, bool)> {
    seq![("nu"@, false), ("cargo"@, false), ("rustup"@, false), ("git"@, true)] + seq![
        (match os {
            Os::Linux => "apt-get"@,
            Os::Macos => "brew"@,
            Os::Windows => "scoop"@,
        }, true),
    ]
}

/// The tools to check on `os` (see [`installation_checks_view`]); the
/// application probes each one.
pub fn installation_checks(os: Os) -> (r: Vec<(&'static str, bool)>)
    ensures
        r@.map_values(|e: (&'static str, bool)| (e.0@, e.1)) == installation_checks_view(os),
{
    let manager = match os {
        Os::Linux => "apt-get",
        Os::Macos => "brew",
        Os::Windows => "scoop",
    };
    let r = vec![("nu", false), ("cargo", false), ("rustup", false), ("git", true), (manager, true)];
    assert(r@.map_values(|e: (&'static str, bool)| (e.0@, e.1)) =~= installation_checks_view(os));
    r
}


proof fn lemma_shell_findings_cover(cmds: Seq<(Seq<char>, CommandSpec)>, os: Os, i: int)
    requires
        0 <= i < cmds.len(),
        !is_supported_shell(cmds[i].1.shell_view(os)),
    ensures
        shell_findings(cmds, os).contains(
            FindingView::Error(unsupported_command_message(cmds[i].0, cmds[i].1.shell_view(os))),
        ),
    decreases cmds.len(),
{
    let f = FindingView::Error(unsupported_command_message(cmds[i].0, cmds[i].1.shell_view(os)));
    let rest = shell_findings(cmds.drop_last(), os);
    let n = cmds.len() - 1;
    let (label, c) = cmds.last();
    let more = if is_supported_shell(c.shell_view(os)) {
        Seq::<FindingView>::empty()
    } else {
        seq![FindingView::Error(unsupported_command_message(label, c.shell_view(os)))]
    };
    assert(shell_findings(cmds, os) == rest + more);
    if i < n {
        lemma_shell_findings_cover(cmds.drop_last(), os, i);
        assert(cmds.drop_last()[i] == cmds[i]);
        let k = choose|k: int| 0 <= k < rest.len() && rest[k] == f;
        assert((rest + more)[k] == f);
    } else {
        assert((rest + more)[rest.len() as int] == f);
    }
}

/// What `swiss doctor -m` reports of a manifest: the planning error when
/// planning fails, a warning when the plan is empty, and an error for every
/// cargo or custom dependency command whose shell Swiss cannot run.
pub proof fn lemma_validation_reports(config: SwissConfig, ctx: PlanContext)
    ensures
        plan_view(config, ctx) matches Err(e) ==> validate_view(config, ctx).contains(
            FindingView::Error(error_message(e)),
        ),
        plan_view(config, ctx) matches Ok(steps) && steps.len() == 0 ==> validate_view(config, ctx).contains(
            FindingView::Warning(EMPTY_PLAN@),
        ),
        forall|i: int|
            0 <= i < all_commands_view(config).len() && !is_supported_shell(
                #[trigger] all_commands_view(config)[i].1.shell_view(ctx.os),
            ) ==> validate_view(config, ctx).contains(
                FindingView::Error(
                    unsupported_command_message(
                        all_commands_view(config)[i].0,
                        all_commands_view(config)[i].1.shell_view(ctx.os),
                    ),
                ),
            ),
{
    let head = match plan_view(config, ctx) {
        Ok(steps) => if steps.len() == 0 {
            seq![FindingView::Warning(EMPTY_PLAN@)]
        } else {
            Seq::empty()
        },
        Err(e) => seq![FindingView::Error(error_message(e))],
    };
    let cmds = all_commands_view(config);
    let lint = lint_view(config, ctx.os);
    assert(validate_view(config, ctx) == head + lint);
    if head.len() > 0 {
        assert((head + lint)[0] == head[0]);
    }
    assert forall|i: int|
        0 <= i < cmds.len() && !is_supported_shell(#[trigger] cmds[i].1.shell_view(ctx.os)) implies (head
        + lint).contains(FindingView::Error(unsupported_command_message(cmds[i].0, cmds[i].1.shell_view(ctx.os)))) by {
        let f = FindingView::Error(unsupported_command_message(cmds[i].0, cmds[i].1.shell_view(ctx.os)));
        lemma_shell_findings_cover(cmds, ctx.os, i);
        let sf = shell_findings(cmds, ctx.os);
        let k = choose|k: int| 0 <= k < sf.len() && sf[k] == f;
        let tail = lint.subrange(sf.len() as int, lint.len() as int);
        assert(lint =~= sf + tail);
        assert(lint[k] == f);
        assert((head + lint)[head.len() + k] == f);
    }
}


/// The packages of one system package manager section, if present.
pub open spec fn section_packages(b: Option<crate::parser::PackageManagerBackendConfig>) -> Seq<Seq<char>> {
    match b {
        Some(b) => strs_view(b.packages@),
        None => Seq::empty(),
    }
}

/// Every package that `package_manager` lists: apt on Linux, Homebrew on
/// macOS and Scoop on Windows.
pub open spec fn listed_system_packages(pm: crate::parser::PackageManagerConfig) -> Seq<Seq<char>> {
    section_packages(
        match pm.linux {
            Some(l) => l.apt,
            None => None,
        },
    ) + section_packages(
        match pm.macos {
            Some(m) => m.brew,
            None => None,
        },
    ) + section_packages(
        match pm.windows {
            Some(w) => w.scoop,
            None => None,
        },
    )
}

/// A package is declared when a cargo or custom dependency has its name or
/// any OS's system package section lists it; it is undeclared exactly when
/// none of these holds.
pub proof fn lemma_package_declared(config: SwissConfig, package: Seq<char>)
    ensures
        package_declared_view(config, package) <==> (has_key(config.dependencies.cargo.entries@, package) || has_key(
            config.dependencies.customs.entries@,
            package,
        ) || listed_system_packages(config.package_manager).contains(package)),
{
    let pm = config.package_manager;
    let l = section_packages(
        match pm.linux {
            Some(l) => l.apt,
            None => None,
        },
    );
    let m = section_packages(
        match pm.macos {
            Some(m) => m.brew,
            None => None,
        },
    );
    let w = section_packages(
        match pm.windows {
            Some(w) => w.scoop,
            None => None,
        },
    );
    let all = l + m + w;
    assert(all == listed_system_packages(pm));
    if all.contains(package) {
        let i = choose|i: int| 0 <= i < all.len() && all[i] == package;
        if i < l.len() {
            assert(all[i] == l[i]);
        } else if i < l.len() + m.len() {
            assert(all[i] == m[i - l.len()]);
        } else {
            assert(all[i] == w[i - l.len() - m.len()]);
        }
    }
    if l.contains(package) {
        let i = choose|i: int| 0 <= i < l.len() && l[i] == package;
        assert(all[i] == package);
    }
    if m.contains(package) {
        let i = choose|i: int| 0 <= i < m.len() && m[i] == package;
        assert(all[l.len() + i] == package);
    }
    if w.contains(package) {
        let i = choose|i: int| 0 <= i < w.len() && w[i] == package;
        assert(all[l.len() + m.len() + i] == package);
    }
}

/// A shell module whose package some dependency or system package section
/// installs reports nothing about that package: its only findings are
/// those about its init entries.
pub proof fn lemma_declared_module_package_not_reported(
    config: SwissConfig,
    name: Seq<char>,
    spec: crate::parser::ShellModuleSpec,
)
    requires
        spec.package matches Some(p) && (has_key(config.dependencies.cargo.entries@, p@) || has_key(
            config.dependencies.customs.entries@,
            p@,
        ) || listed_system_packages(config.package_manager).contains(p@)),
    ensures
        module_findings(config, name, spec) == init_findings(name, crate::strmap::keys_of(spec.init.entries@)),
{
    lemma_package_declared(config, spec.package->0@);
    assert(Seq::<FindingView>::empty() + init_findings(name, crate::strmap::keys_of(spec.init.entries@))
        == init_findings(name, crate::strmap::keys_of(spec.init.entries@)));
}

} // verus!
