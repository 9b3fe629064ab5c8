//! Execution plans: the steps a manifest turns into, and how they are built.
use crate::error::{PlanError, PlanErrorView};
use crate::config_loader::LoadedManifest;
use crate::parser::{
    CargoCustomConfig, CommandSpec, CustomDependency, FileSpec, GitConfig, Os, PackageManagerBackendConfig, PackageManagerConfig, SwissConfig,
    default_shell_of, gate, package_name_of,
};
use crate::persistence::{Dependency, DependencyStatus, DependencyType, SwissCache};
use crate::strmap::{StrMap, lookup};
use crate::text;
use crate::text::{push_decimal, push_joined, push_padded_left, decimal_string, strs_view, to_owned};
use vstd::prelude::*;

verus! {

/// Where custom dependencies get their working directories, under home.
pub const CUSTOM_MODULES_SUBDIR: &'static str = ".config/swiss/crates";

/// Everything the planner needs to know about the host. Building this is the
/// only place that probes the system, so planning stays a pure function.
#[derive(Debug, Clone)]
pub struct PlanContext {
    pub os: Os,
    pub home: String,
    pub base_dir: String,
    pub cache: SwissCache,
    pub nu_installed: bool,
    pub nu_version: Option<String>,
    pub cargo_installed: bool,
    pub binstall_installed: bool,
    /// Names of the shells found on the host.
    pub available_shells: Vec<String>,
    /// Snapshot of the process environment.
    pub env: StrMap<String>,
    /// Contents of the `files[].source` templates, keyed by the source as
    /// written in the manifest; an error holds the reason the read failed.
    pub templates: StrMap<Result<Vec<u8>, String>>,
}

/// One atomic action the executor knows how to perform.
#[derive(Debug, Clone, PartialEq)]
pub enum Step {
    Command { program: String, args: Vec<String>, cwd: Option<String>, requires_admin: bool },
    ShellCommand { shell: String, command: String, cwd: Option<String>, requires_admin: bool },
    EnsureDir { path: String },
    WriteFile {
        path: String,
        content: Vec<u8>,
        overwrite: bool,
        append_if_missing: bool,
        backup: bool,
        requires_admin: bool,
    },
    GitSync {
        repo: String,
        branch: Option<String>,
        depth: Option<u32>,
        recursive: bool,
        dest: String,
    },
    /// Replace or append a bounded `# swiss begin/end` block in a startup
    /// file; `target` is unexpanded (`~/.zshrc`, `$PROFILE`).
    PatchBlock { target: String, block: String, content: String },
    /// Patch `$nu.env-path` / `$nu.config-path` with the Swiss hooks.
    ConfigureNu,
    /// Symlink nu binaries from `~/.cargo/bin` into `/usr/local/bin`.
    LinkNuBinaries,
    RecordDep { dep: Dependency },
    RecordAliases { aliases: StrMap<String> },
}

/// A step with every string taken by its view.
pub enum StepView {
    Command { program: Seq<char>, args: Seq<Seq<char>>, cwd: Option<Seq<char>>, requires_admin: bool },
    ShellCommand { shell: Seq<char>, command: Seq<char>, cwd: Option<Seq<char>>, requires_admin: bool },
    EnsureDir { path: Seq<char> },
    WriteFile {
        path: Seq<char>,
        content: Seq<u8>,
        overwrite: bool,
        append_if_missing: bool,
        backup: bool,
        requires_admin: bool,
    },
    GitSync {
        repo: Seq<char>,
        branch: Option<Seq<char>>,
        depth: Option<u32>,
        recursive: bool,
        dest: Seq<char>,
    },
    PatchBlock { target: Seq<char>, block: Seq<char>, content: Seq<char> },
    ConfigureNu,
    LinkNuBinaries,
    RecordDep { name: Seq<char>, version: Option<Seq<char>>, status: DependencyStatus, dep_type: DependencyType },
    RecordAliases { aliases: Seq<(Seq<char>, Seq<char>)> },
}

/// The views of string pairs.
pub open spec fn pairs_view(s: Seq<(String, String)>) -> Seq<(Seq<char>, Seq<char>)> {
    s.map_values(|e: (String, String)| (e.0@, e.1@))
}

impl View for Step {
    type V = StepView;

    open spec fn view(&self) -> StepView {
        match self {
            Step::Command { program, args, cwd, requires_admin } => StepView::Command {
                program: program@,
                args: text::strs_view(args@),
                cwd: text::opt_view(*cwd),
                requires_admin: *requires_admin,
            },
            Step::ShellCommand { shell, command, cwd, requires_admin } => StepView::ShellCommand {
                shell: shell@,
                command: command@,
                cwd: text::opt_view(*cwd),
                requires_admin: *requires_admin,
            },
            Step::EnsureDir { path } => StepView::EnsureDir { path: path@ },
            Step::WriteFile { path, content, overwrite, append_if_missing, backup, requires_admin } =>
                StepView::WriteFile {
                path: path@,
                content: content@,
                overwrite: *overwrite,
                append_if_missing: *append_if_missing,
                backup: *backup,
                requires_admin: *requires_admin,
            },
            Step::GitSync { repo, branch, depth, recursive, dest } => StepView::GitSync {
                repo: repo@,
                branch: text::opt_view(*branch),
                depth: *depth,
                recursive: *recursive,
                dest: dest@,
            },
            Step::PatchBlock { target, block, content } => StepView::PatchBlock {
                target: target@,
                block: block@,
                content: content@,
            },
            Step::ConfigureNu => StepView::ConfigureNu,
            Step::LinkNuBinaries => StepView::LinkNuBinaries,
            Step::RecordDep { dep } => StepView::RecordDep {
                name: dep.name@,
                version: text::opt_view(dep.version),
                status: dep.status,
                dep_type: dep.dep_type,
            },
            Step::RecordAliases { aliases } => StepView::RecordAliases {
                aliases: pairs_view(aliases.entries@),
            },
        }
    }
}

/// The views of a sequence of steps.
pub open spec fn steps_view(s: Seq<Step>) -> Seq<StepView> {
    s.map_values(|st: Step| st@)
}

/// The view of concatenated steps is the concatenation of their views.
pub proof fn lemma_steps_view_append(a: Seq<Step>, b: Seq<Step>)
    ensures
        steps_view(a + b) == steps_view(a) + steps_view(b),
{
    assert(steps_view(a + b) =~= steps_view(a) + steps_view(b));
}

/// Whether a step needs administrator rights on `os`.
pub open spec fn step_admin(s: StepView, os: Os) -> bool {
    match s {
        StepView::Command { requires_admin, .. } => requires_admin,
        StepView::ShellCommand { requires_admin, .. } => requires_admin,
        StepView::WriteFile { requires_admin, .. } => requires_admin,
        StepView::LinkNuBinaries => os != Os::Windows,
        _ => false,
    }
}

/// Whether a step only updates the cache.
pub open spec fn step_bookkeeping(s: StepView) -> bool {
    s is RecordDep || s is RecordAliases
}

/// ` (in <cwd>)` when a working directory is set.
pub open spec fn cwd_suffix(cwd: Option<Seq<char>>) -> Seq<char> {
    match cwd {
        Some(c) => " (in "@ + c + ")"@,
        None => Seq::empty(),
    }
}

/// ` [admin]` for steps that need administrator rights.
pub open spec fn admin_suffix(admin: bool) -> Seq<char> {
    if admin {
        " [admin]"@
    } else {
        Seq::empty()
    }
}

/// How a write treats an existing file.
pub open spec fn write_mode(overwrite: bool, append_if_missing: bool) -> Seq<char> {
    if append_if_missing {
        "append-if-missing"@
    } else if overwrite {
        "overwrite"@
    } else {
        "create-if-missing"@
    }
}

/// The one-line description of a step shown in plans and progress.
pub open spec fn describe_view(s: StepView) -> Seq<char> {
    match s {
        StepView::Command { program, args, cwd, requires_admin } => "run: "@ + program + " "@
            + text::join_with(args, " "@) + cwd_suffix(cwd) + admin_suffix(requires_admin),
        StepView::ShellCommand { shell, command, cwd, requires_admin } => "run ("@ + shell + "): "@
            + command + cwd_suffix(cwd) + admin_suffix(requires_admin),
        StepView::EnsureDir { path } => "ensure dir: "@ + path,
        StepView::WriteFile { path, content, overwrite, append_if_missing, requires_admin, .. } =>
            "write file: "@ + path + " ("@ + write_mode(overwrite, append_if_missing) + ", "@
            + text::decimal(content.len()) + " bytes)"@ + admin_suffix(requires_admin),
        StepView::GitSync { repo, dest, .. } => "git sync: "@ + repo + " -> "@ + dest,
        StepView::PatchBlock { target, block, .. } => "patch block '"@ + block + "' in "@ + target,
        StepView::ConfigureNu => "patch nushell env/config files with Swiss loaders"@,
        StepView::LinkNuBinaries => "link nu binaries from ~/.cargo/bin to /usr/local/bin [admin]"@,
        StepView::RecordDep { name, .. } => "record dependency state: "@ + name,
        StepView::RecordAliases { aliases } => "record "@ + text::decimal(aliases.len())
            + " alias(es) in cache"@,
    }
}

fn push_cwd(out: &mut String, cwd: &Option<String>)
    ensures
        final(out)@ == old(out)@ + cwd_suffix(text::opt_view(*cwd)),
{
    if let Some(c) = cwd {
        out.append(" (in ");
        out.append(c.as_str());
        out.append(")");
    }
}

fn push_admin(out: &mut String, admin: bool)
    ensures
        final(out)@ == old(out)@ + admin_suffix(admin),
{
    if admin {
        out.append(" [admin]");
    }
}

impl Step {
    pub fn requires_admin(&self, os: Os) -> (r: bool)
        ensures
            r == step_admin(self@, os),
    {
        match self {
            Step::Command { requires_admin, .. } => *requires_admin,
            Step::ShellCommand { requires_admin, .. } => *requires_admin,
            Step::WriteFile { requires_admin, .. } => *requires_admin,
            Step::LinkNuBinaries => match os {
                Os::Windows => false,
                _ => true,
            },
            _ => false,
        }
    }

    /// Cache-only bookkeeping (`RecordDep`, `RecordAliases`).
    pub fn is_bookkeeping(&self) -> (r: bool)
        ensures
            r == step_bookkeeping(self@),
    {
        match self {
            Step::RecordDep { .. } => true,
            Step::RecordAliases { .. } => true,
            _ => false,
        }
    }

    /// The one-line description of the step.
    pub fn describe(&self) -> (r: String)
        ensures
            r@ == describe_view(self@),
    {
        let mut out = String::new();
        match self {
            Step::Command { program, args, cwd, requires_admin } => {
                out.append("run: ");
                out.append(program.as_str());
                out.append(" ");
                push_joined(&mut out, args, " ");
                push_cwd(&mut out, cwd);
                push_admin(&mut out, *requires_admin);
            },
            Step::ShellCommand { shell, command, cwd, requires_admin } => {
                out.append("run (");
                out.append(shell.as_str());
                out.append("): ");
                out.append(command.as_str());
                push_cwd(&mut out, cwd);
                push_admin(&mut out, *requires_admin);
            },
            Step::EnsureDir { path } => {
                out.append("ensure dir: ");
                out.append(path.as_str());
            },
            Step::WriteFile { path, content, overwrite, append_if_missing, requires_admin, .. } => {
                out.append("write file: ");
                out.append(path.as_str());
                out.append(" (");
                if *append_if_missing {
                    out.append("append-if-missing");
                } else if *overwrite {
                    out.append("overwrite");
                } else {
                    out.append("create-if-missing");
                }
                out.append(", ");
                push_decimal(&mut out, content.len() as u64);
                out.append(" bytes)");
                push_admin(&mut out, *requires_admin);
            },
            Step::GitSync { repo, dest, .. } => {
                out.append("git sync: ");
                out.append(repo.as_str());
                out.append(" -> ");
                out.append(dest.as_str());
            },
            Step::PatchBlock { target, block, .. } => {
                out.append("patch block '");
                out.append(block.as_str());
                out.append("' in ");
                out.append(target.as_str());
            },
            Step::ConfigureNu => {
                out.append("patch nushell env/config files with Swiss loaders");
            },
            Step::LinkNuBinaries => {
                out.append("link nu binaries from ~/.cargo/bin to /usr/local/bin [admin]");
            },
            Step::RecordDep { dep } => {
                out.append("record dependency state: ");
                out.append(dep.name());
            },
            Step::RecordAliases { aliases } => {
                out.append("record ");
                push_decimal(&mut out, aliases.len() as u64);
                out.append(" alias(es) in cache");
            },
        }
        out
    }
}

#[derive(Debug, Clone, PartialEq)]
pub struct Plan {
    pub steps: Vec<Step>,
}

impl Default for Plan {
    fn default() -> (r: Self)
        ensures
            r.steps@.len() == 0,
    {
        Plan { steps: Vec::new() }
    }
}

/// The rendering of a whole plan: numbered step descriptions.
pub open spec fn render_view(steps: Seq<StepView>) -> Seq<char> {
    if steps.len() == 0 {
        "Nothing to do: the plan is empty."@
    } else {
        render_lines(steps)
    }
}

/// One `NNN. description` line per step, numbered from 1.
pub open spec fn render_lines(steps: Seq<StepView>) -> Seq<char>
    decreases steps.len(),
{
    if steps.len() == 0 {
        Seq::empty()
    } else {
        render_lines(steps.drop_last()) + text::pad_left(text::decimal(steps.len()), 3) + ". "@
            + describe_view(steps.last()) + "\n"@
    }
}

/// A step after `--force-files`: writes overwrite, everything else as is.
pub open spec fn forced(s: StepView) -> StepView {
    match s {
        StepView::WriteFile { path, content, append_if_missing, backup, requires_admin, .. } =>
            StepView::WriteFile { path, content, overwrite: true, append_if_missing, backup, requires_admin },
        other => other,
    }
}

impl Plan {
    pub fn is_empty(&self) -> (r: bool)
        ensures
            r == (self.steps@.len() == 0),
    {
        self.steps.len() == 0
    }

    /// Whether any step needs administrator rights on `os`.
    pub fn requires_admin(&self, os: Os) -> (r: bool)
        ensures
            r == exists|i: int| 0 <= i < self.steps@.len() && step_admin(#[trigger] self.steps@[i]@, os),
    {
        let mut i: usize = 0;
        while i < self.steps.len()
            invariant
                i <= self.steps@.len(),
                forall|j: int| 0 <= j < i ==> !step_admin(#[trigger] self.steps@[j]@, os),
            decreases self.steps.len() - i,
        {
            if self.steps[i].requires_admin(os) {
                return true;
            }
            i = i + 1;
        }
        false
    }

    /// The plan as shown to the user.
    pub fn render(&self) -> (r: String)
        ensures
            r@ == render_view(steps_view(self.steps@)),
    {
        if self.steps.len() == 0 {
            return text::to_owned("Nothing to do: the plan is empty.");
        }
        let mut out = String::new();
        let mut i: usize = 0;
        while i < self.steps.len()
            invariant
                i <= self.steps@.len(),
                out@ == render_lines(steps_view(self.steps@.take(i as int))),
            decreases self.steps.len() - i,
        {
            let number = decimal_string((i + 1) as u64);
            push_padded_left(&mut out, number.as_str(), 3);
            out.append(". ");
            let d = self.steps[i].describe();
            out.append(d.as_str());
            out.append("\n");
            proof {
                let t = steps_view(self.steps@.take(i + 1));
                assert(t.drop_last() == steps_view(self.steps@.take(i as int)));
                assert(t.last() == self.steps@[i as int]@);
                assert(t.len() == i + 1);
                assert(steps_view(self.steps@.take(0)).len() == 0);
            }
            i = i + 1;
        }
        assert(self.steps@.take(self.steps@.len() as int) == self.steps@);
        out
    }

    /// `--force-files`: rewrite declared/generated files even if they exist.
    pub fn force_file_overwrites(self) -> (r: Plan)
        ensures
            steps_view(r.steps@) == steps_view(self.steps@).map_values(|s: StepView| forced(s)),
    {
        let mut steps: Vec<Step> = Vec::new();
        let ghost orig = self.steps@;
        for step in it: self.steps.into_iter()
            invariant
                it.seq() == orig,
                steps@.len() == it.index(),
                forall|j: int| 0 <= j < it.index() ==> #[trigger] steps@[j]@ == forced(orig[j]@),
        {
            let s = match step {
                Step::WriteFile { path, content, append_if_missing, backup, requires_admin, .. } =>
                    Step::WriteFile { path, content, overwrite: true, append_if_missing, backup, requires_admin },
                other => other,
            };
            steps.push(s);
        }
        assert(steps_view(steps@) =~= steps_view(orig).map_values(|s: StepView| forced(s)));
        Plan { steps }
    }
}

/// A command step without a working directory.
pub open spec fn cmd_view(program: Seq<char>, args: Seq<Seq<char>>, admin: bool) -> StepView {
    StepView::Command { program, args, cwd: None, requires_admin: admin }
}

/// `~/.cargo/bin/cargo` under `home`.
pub open spec fn cargo_bin_view(home: Seq<char>) -> Seq<char> {
    crate::paths::path_join(home, ".cargo/bin/cargo"@)
}

/// The cargo binary Swiss drives, under the user's home.
pub fn cargo_bin(context: &PlanContext) -> (r: String)
    ensures
        r@ == cargo_bin_view(context.home@),
{
    crate::paths::join_path(context.home.as_str(), ".cargo/bin/cargo")
}

/// The variable an `env` entry reads: `from_env`, or the entry's own name.
pub open spec fn env_source(name: Seq<char>, req: crate::parser::EnvRequirement) -> Seq<char> {
    match req.from_env {
        Some(s) => s@,
        None => name,
    }
}

/// Whether a required variable is unset and has no default.
pub open spec fn env_missing(
    name: Seq<char>,
    req: crate::parser::EnvRequirement,
    env: Seq<(String, String)>,
) -> bool {
    req.required && req.default is None && lookup(env, env_source(name, req)) is None
}

/// The error of the first `env` entry whose variable is missing.
pub open spec fn env_error(
    entries: Seq<(String, crate::parser::EnvRequirement)>,
    env: Seq<(String, String)>,
) -> Option<PlanErrorView>
    decreases entries.len(),
{
    if entries.len() == 0 {
        None
    } else {
        match env_error(entries.drop_last(), env) {
            Some(e) => Some(e),
            None => if env_missing(entries.last().0@, entries.last().1, env) {
                Some(
                    PlanErrorView::MissingEnv {
                        source: env_source(entries.last().0@, entries.last().1),
                        name: entries.last().0@,
                    },
                )
            } else {
                None
            },
        }
    }
}

/// Fails on the first required environment variable that is unset (in the
/// environment snapshot) and has no default.
pub fn validate_env_requirements(config: &SwissConfig, context: &PlanContext) -> (r: Result<(), PlanError>)
    ensures
        match r {
            Ok(_) => env_error(config.env.entries@, context.env.entries@) is None,
            Err(e) => env_error(config.env.entries@, context.env.entries@) == Some(e@),
        },
{
    let mut i: usize = 0;
    while i < config.env.entries.len()
        invariant
            i <= config.env.entries@.len(),
            env_error(config.env.entries@.take(i as int), context.env.entries@) is None,
        decreases config.env.entries.len() - i,
    {
        let name = &config.env.entries[i].0;
        let requirement = &config.env.entries[i].1;
        let source: &str = match &requirement.from_env {
            Some(s) => s.as_str(),
            None => name.as_str(),
        };
        proof {
            let t = config.env.entries@.take(i + 1);
            assert(t.drop_last() == config.env.entries@.take(i as int));
            assert(t.last() == config.env.entries@[i as int]);
        }
        if requirement.required && requirement.default.is_none() && context.env.get(source).is_none() {
            proof {
                lemma_env_error_sticks(config.env.entries@, context.env.entries@, i as int + 1);
            }
            return Err(PlanError::MissingEnv { source: to_owned(source), name: to_owned(name.as_str()) });
        }
        i = i + 1;
    }
    assert(config.env.entries@.take(config.env.entries@.len() as int) == config.env.entries@);
    Ok(())
}

/// Once a prefix of the entries fails, the whole list fails the same way.
proof fn lemma_env_error_sticks(
    entries: Seq<(String, crate::parser::EnvRequirement)>,
    env: Seq<(String, String)>,
    n: int,
)
    requires
        0 <= n <= entries.len(),
        env_error(entries.take(n), env) is Some,
    ensures
        env_error(entries, env) == env_error(entries.take(n), env),
    decreases entries.len() - n,
{
    if n < entries.len() {
        let t = entries.take(n + 1);
        assert(t.drop_last() == entries.take(n));
        lemma_env_error_sticks(entries, env, n + 1);
    } else {
        assert(entries.take(n) == entries);
    }
}

/// The package manager section for `os`: apt, brew or scoop.
pub open spec fn backend_of(pm: PackageManagerConfig, os: Os) -> Option<PackageManagerBackendConfig> {
    match os {
        Os::Linux => match pm.linux {
            Some(l) => l.apt,
            None => None,
        },
        Os::Macos => match pm.macos {
            Some(m) => m.brew,
            None => None,
        },
        Os::Windows => match pm.windows {
            Some(w) => w.scoop,
            None => None,
        },
    }
}

/// The system package steps for `os`: nothing without packages; apt runs
/// through `sudo`, optionally after `apt-get update`.
pub open spec fn package_manager_view(pm: PackageManagerConfig, os: Os) -> Seq<StepView> {
    match backend_of(pm, os) {
        None => Seq::empty(),
        Some(b) => if b.packages@.len() == 0 {
            Seq::empty()
        } else {
            let pkgs = strs_view(b.packages@);
            match os {
                Os::Linux => (if b.update_index {
                    seq![cmd_view("sudo"@, seq!["apt-get"@, "update"@], true)]
                } else {
                    Seq::empty()
                }) + seq![cmd_view("sudo"@, seq!["apt-get"@, "install"@, "-y"@] + pkgs, true)],
                Os::Macos => seq![cmd_view("brew"@, seq!["install"@] + pkgs, false)],
                Os::Windows => seq![cmd_view("scoop"@, seq!["install"@] + pkgs, false)],
            }
        },
    }
}

/// Installs the OS packages of the current platform's package manager.
pub fn package_manager_steps(config: &SwissConfig, os: Os) -> (r: Vec<Step>)
    ensures
        steps_view(r@) == package_manager_view(config.package_manager, os),
{
    let mut steps: Vec<Step> = Vec::new();
    let backend: Option<&PackageManagerBackendConfig> = match os {
        Os::Linux => match &config.package_manager.linux {
            Some(l) => l.apt.as_ref(),
            None => None,
        },
        Os::Macos => match &config.package_manager.macos {
            Some(m) => m.brew.as_ref(),
            None => None,
        },
        Os::Windows => match &config.package_manager.windows {
            Some(w) => w.scoop.as_ref(),
            None => None,
        },
    };
    let backend = match backend {
        Some(b) => b,
        None => {
            assert(steps_view(steps@) =~= Seq::<StepView>::empty());
            return steps;
        },
    };
    if backend.packages.len() == 0 {
        assert(steps_view(steps@) =~= Seq::<StepView>::empty());
        return steps;
    }
    let ghost pkgs = strs_view(backend.packages@);
    match os {
        Os::Linux => {
            if backend.update_index {
                let args = vec![to_owned("apt-get"), to_owned("update")];
                assert(strs_view(args@) =~= seq!["apt-get"@, "update"@]);
                steps.push(Step::Command { program: to_owned("sudo"), args, cwd: None, requires_admin: true });
            }
            let mut args = vec![to_owned("apt-get"), to_owned("install"), to_owned("-y")];
            assert(strs_view(args@) =~= seq!["apt-get"@, "install"@, "-y"@]);
            text::extend_strings(&mut args, &backend.packages);
            steps.push(Step::Command { program: to_owned("sudo"), args, cwd: None, requires_admin: true });
        },
        Os::Macos => {
            let mut args = vec![to_owned("install")];
            assert(strs_view(args@) =~= seq!["install"@]);
            text::extend_strings(&mut args, &backend.packages);
            steps.push(Step::Command { program: to_owned("brew"), args, cwd: None, requires_admin: false });
        },
        Os::Windows => {
            let mut args = vec![to_owned("install")];
            assert(strs_view(args@) =~= seq!["install"@]);
            text::extend_strings(&mut args, &backend.packages);
            steps.push(Step::Command { program: to_owned("scoop"), args, cwd: None, requires_admin: false });
        },
    }
    assert(steps_view(steps@) =~= package_manager_view(config.package_manager, os));
    steps
}

/// The shell steps of a command list: blank entries are skipped; every
/// other entry runs through its shell in `cwd`.
pub open spec fn command_steps_view(cmds: Seq<CommandSpec>, cwd: Option<Seq<char>>, os: Os) -> Seq<StepView>
    decreases cmds.len(),
{
    if cmds.len() == 0 {
        Seq::empty()
    } else {
        let c = cmds.last();
        command_steps_view(cmds.drop_last(), cwd, os) + if text::trim_seq(c.run_view()).len() == 0 {
            Seq::empty()
        } else {
            seq![
                StepView::ShellCommand {
                    shell: c.shell_view(os),
                    command: c.run_view(),
                    cwd,
                    requires_admin: c.admin_view(),
                },
            ]
        }
    }
}

fn command_steps(commands: &Vec<CommandSpec>, cwd: &Option<String>, os: Os) -> (r: Vec<Step>)
    ensures
        steps_view(r@) == command_steps_view(commands@, text::opt_view(*cwd), os),
{
    let mut steps: Vec<Step> = Vec::new();
    let mut i: usize = 0;
    assert(steps_view(steps@) =~= command_steps_view(commands@.take(0), text::opt_view(*cwd), os));
    while i < commands.len()
        invariant
            i <= commands@.len(),
            steps_view(steps@) == command_steps_view(commands@.take(i as int), text::opt_view(*cwd), os),
        decreases commands.len() - i,
    {
        let command = &commands[i];
        proof {
            let t = commands@.take(i + 1);
            assert(t.drop_last() == commands@.take(i as int));
            assert(t.last() == commands@[i as int]);
        }
        if !command.is_empty() {
            let step = Step::ShellCommand {
                shell: to_owned(command.shell(os)),
                command: to_owned(command.run()),
                cwd: text::clone_opt(cwd),
                requires_admin: command.requires_admin(),
            };
            let ghost before = steps@;
            steps.push(step);
            proof {
                assert(steps@ == before + seq![step]);
                lemma_steps_view_append(before, seq![step]);
                assert(steps_view(seq![step]) =~= seq![step@]);
            }
        } else {
            assert(commands@.take(i + 1).last() == *command);
        }
        i = i + 1;
    }
    assert(commands@.take(commands@.len() as int) == commands@);
    steps
}

/// Whether anything in the manifest needs cargo: cargo dependencies,
/// Nushell, a toolchain or components.
pub open spec fn needs_cargo(config: SwissConfig) -> bool {
    ||| config.dependencies.cargo.entries@.len() > 0
    ||| config.manages_nushell_view()
    ||| config.rust.toolchain@.len() > 0
    ||| config.rust.components@.len() > 0
}

/// The official rustup one-liner for Unix hosts.
pub const RUSTUP_INSTALL_UNIX: &'static str = "curl https://sh.rustup.rs -sSf | sh -s -- -y";

/// The official rustup installer, downloaded and run through PowerShell.
pub const RUSTUP_INSTALL_WINDOWS: &'static str =
    "Invoke-WebRequest https://win.rustup.rs -OutFile rustup-init.exe; .\\rustup-init.exe -y";

/// The rustup installer command used when the manifest declares none.
pub open spec fn default_rust_installer(os: Os) -> Seq<char> {
    match os {
        Os::Windows => RUSTUP_INSTALL_WINDOWS@,
        _ => RUSTUP_INSTALL_UNIX@,
    }
}

/// Installs Rust when the manifest needs cargo and the host lacks it: the
/// declared `installer` commands for `os`, or the rustup one-liner.
pub open spec fn rust_installer_view(config: SwissConfig, ctx: PlanContext) -> Seq<StepView> {
    if !needs_cargo(config) || ctx.cargo_installed {
        Seq::empty()
    } else {
        match config.rust.installer.for_os_view(ctx.os) {
            Some(cmds) => command_steps_view(cmds@, None, ctx.os),
            None => seq![
                StepView::ShellCommand {
                    shell: default_shell_of(ctx.os),
                    command: default_rust_installer(ctx.os),
                    cwd: None,
                    requires_admin: false,
                },
            ],
        }
    }
}

/// Installs Rust (see [`rust_installer_view`]).
pub fn rust_installer_steps(config: &SwissConfig, context: &PlanContext) -> (r: Vec<Step>)
    ensures
        steps_view(r@) == rust_installer_view(*config, *context),
{
    let needs = config.dependencies.cargo.len() > 0 || config.manages_nushell()
        || config.rust.toolchain.unicode_len() > 0 || config.rust.components.len() > 0;
    if !needs || context.cargo_installed {
        let v: Vec<Step> = Vec::new();
        assert(steps_view(v@) =~= Seq::<StepView>::empty());
        return v;
    }
    match config.rust.installer.for_os(context.os) {
        Some(cmds) => command_steps(cmds, &None, context.os),
        None => {
            let command = match context.os {
                Os::Windows => RUSTUP_INSTALL_WINDOWS,
                _ => RUSTUP_INSTALL_UNIX,
            };
            let v = vec![
                Step::ShellCommand {
                    shell: to_owned(crate::parser::default_command_shell(context.os)),
                    command: to_owned(command),
                    cwd: None,
                    requires_admin: false,
                },
            ];
            assert(steps_view(v@) =~= rust_installer_view(*config, *context));
            v
        },
    }
}

/// `rustup toolchain install <toolchain>` when a toolchain is declared.
pub open spec fn rust_toolchain_view(rust: crate::parser::RustConfig) -> Seq<StepView> {
    if rust.toolchain@.len() == 0 {
        Seq::empty()
    } else {
        seq![cmd_view("rustup"@, seq!["toolchain"@, "install"@, rust.toolchain@], false)]
    }
}

pub fn rust_toolchain_steps(config: &SwissConfig) -> (r: Vec<Step>)
    ensures
        steps_view(r@) == rust_toolchain_view(config.rust),
{
    let mut v: Vec<Step> = Vec::new();
    if config.rust.toolchain.unicode_len() > 0 {
        let args = vec![to_owned("toolchain"), to_owned("install"), to_owned(config.rust.toolchain.as_str())];
        assert(strs_view(args@) =~= seq!["toolchain"@, "install"@, config.rust.toolchain@]);
        v.push(Step::Command { program: to_owned("rustup"), args, cwd: None, requires_admin: false });
    }
    assert(steps_view(v@) =~= rust_toolchain_view(config.rust));
    v
}

/// `rustup component add [--toolchain <t>] <component>`.
pub open spec fn component_step(toolchain: Seq<char>, component: Seq<char>) -> StepView {
    cmd_view(
        "rustup"@,
        seq!["component"@, "add"@] + (if toolchain.len() == 0 {
            Seq::empty()
        } else {
            seq!["--toolchain"@, toolchain]
        }) + seq![component],
        false,
    )
}

/// One component step per declared component, in manifest order.
pub open spec fn rust_component_view(rust: crate::parser::RustConfig) -> Seq<StepView> {
    strs_view(rust.components@).map_values(|c: Seq<char>| component_step(rust.toolchain@, c))
}

pub fn rust_component_steps(config: &SwissConfig) -> (r: Vec<Step>)
    ensures
        steps_view(r@) == rust_component_view(config.rust),
{
    let mut steps: Vec<Step> = Vec::new();
    let has_toolchain = config.rust.toolchain.unicode_len() > 0;
    let mut i: usize = 0;
    while i < config.rust.components.len()
        invariant
            i <= config.rust.components@.len(),
            has_toolchain == (config.rust.toolchain@.len() > 0),
            steps@.len() == i,
            forall|j: int|
                0 <= j < i ==> #[trigger] steps@[j]@ == component_step(
                    config.rust.toolchain@,
                    config.rust.components@[j]@,
                ),
        decreases config.rust.components.len() - i,
    {
        let mut args = vec![to_owned("component"), to_owned("add")];
        if has_toolchain {
            args.push(to_owned("--toolchain"));
            args.push(to_owned(config.rust.toolchain.as_str()));
        }
        args.push(to_owned(config.rust.components[i].as_str()));
        assert(strs_view(args@) =~= seq!["component"@, "add"@] + (if config.rust.toolchain@.len() == 0 {
            Seq::<Seq<char>>::empty()
        } else {
            seq!["--toolchain"@, config.rust.toolchain@]
        }) + seq![config.rust.components@[i as int]@]);
        steps.push(Step::Command { program: to_owned("rustup"), args, cwd: None, requires_admin: false });
        i = i + 1;
    }
    assert(steps_view(steps@) =~= rust_component_view(config.rust));
    steps
}

/// Appends `more` to `steps`.
pub fn append_steps(steps: &mut Vec<Step>, more: Vec<Step>)
    ensures
        steps_view(final(steps)@) == steps_view(old(steps)@) + steps_view(more@),
{
    let ghost before = steps@;
    let ghost m = more@;
    let mut more = more;
    steps.append(&mut more);
    proof {
        lemma_steps_view_append(before, m);
    }
}

/// Appends one step to `steps`.
pub fn push_step(steps: &mut Vec<Step>, step: Step)
    ensures
        steps_view(final(steps)@) == steps_view(old(steps)@).push(step@),
{
    let ghost before = steps@;
    steps.push(step);
    assert(steps_view(steps@) =~= steps_view(before).push(step@));
}

/// The `nu` package to install: `nu` or `nu@<version>`.
pub open spec fn nu_package(pinned: Option<Seq<char>>) -> Seq<char> {
    match pinned {
        Some(v) => "nu"@ + "@"@ + v,
        None => "nu"@,
    }
}

/// Whether the installed Nushell satisfies the manifest: a version is
/// pinned, and the installed `nu` reports it. An unpinned Nushell always
/// asks for the latest release.
pub open spec fn nu_up_to_date(pinned: Option<Seq<char>>, installed: bool, version: Option<Seq<char>>) -> bool {
    installed && match pinned {
        None => false,
        Some(p) => match version {
            Some(v) => text::contains_seq(v, p),
            None => false,
        },
    }
}

/// Nushell installation: `cargo binstall -y nu[@version]`, the binary links
/// (a step that does nothing on Windows), and the dependency record; nothing when Nushell is not managed
/// or the pinned version is already installed.
pub open spec fn nushell_view(config: SwissConfig, ctx: PlanContext) -> Seq<StepView> {
    let pinned = config.nushell_version_view();
    if !config.manages_nushell_view() || nu_up_to_date(pinned, ctx.nu_installed, text::opt_view(ctx.nu_version)) {
        Seq::empty()
    } else {
        seq![cmd_view(cargo_bin_view(ctx.home@), seq!["binstall"@, "-y"@, nu_package(pinned)], false)]
            + seq![StepView::LinkNuBinaries] + seq![
            StepView::RecordDep {
                name: crate::persistence::NUSHELL_DEP@,
                version: pinned,
                status: DependencyStatus::Installed,
                dep_type: DependencyType::Cargo,
            },
        ]
    }
}

/// Installs Nushell (see [`nushell_view`]).
pub fn nushell_steps(config: &SwissConfig, context: &PlanContext) -> (r: Vec<Step>)
    ensures
        steps_view(r@) == nushell_view(*config, *context),
{
    let mut steps: Vec<Step> = Vec::new();
    let pinned = config.nushell_version();
    let up_to_date = context.nu_installed && match pinned {
        None => false,
        Some(p) => match &context.nu_version {
            Some(v) => text::str_contains(v.as_str(), p),
            None => false,
        },
    };
    if !config.manages_nushell() || up_to_date {
        assert(steps_view(steps@) =~= Seq::<StepView>::empty());
        return steps;
    }
    let mut package = to_owned("nu");
    let mut version: Option<String> = None;
    match pinned {
        Some(p) => {
            package.append("@");
            package.append(p);
            version = Some(to_owned(p));
        },
        None => {},
    }
    let args = vec![to_owned("binstall"), to_owned("-y"), package];
    let ghost pv = nu_package(config.nushell_version_view());
    assert(strs_view(args@) =~= seq!["binstall"@, "-y"@, pv]);
    push_step(&mut steps, Step::Command { program: cargo_bin(context), args, cwd: None, requires_admin: false });
    push_step(&mut steps, Step::LinkNuBinaries);
    push_step(
        &mut steps,
        Step::RecordDep {
            dep: Dependency::new(
                to_owned(crate::persistence::NUSHELL_DEP),
                version,
                DependencyStatus::Installed,
                DependencyType::Cargo,
            ),
        },
    );
    assert(steps_view(steps@) =~= nushell_view(*config, *context));
    steps
}

/// The version a cargo entry asks for (`*` when the entry is empty).
pub open spec fn eff_version(o: Option<CargoCustomConfig>) -> Seq<char> {
    match o {
        Some(c) => c.version@,
        None => "*"@,
    }
}

/// Whether a cargo entry is installable on `os` (empty entries always are).
pub open spec fn eff_gate(o: Option<CargoCustomConfig>, os: Os) -> bool {
    match o {
        Some(c) => gate(os, c.linux, c.macos, c.windows),
        None => true,
    }
}

/// Extra `cargo binstall` arguments of a cargo entry.
pub open spec fn eff_args(o: Option<CargoCustomConfig>) -> Seq<Seq<char>> {
    match o {
        Some(c) => strs_view(c.args@),
        None => Seq::empty(),
    }
}

/// Post-install commands of a cargo entry.
pub open spec fn eff_commands(o: Option<CargoCustomConfig>) -> Seq<CommandSpec> {
    match o {
        Some(c) => c.commands@,
        None => Seq::empty(),
    }
}

/// Aliases of a cargo entry.
pub open spec fn eff_aliases(o: Option<CargoCustomConfig>) -> Seq<(String, String)> {
    match o {
        Some(c) => c.alias.entries@,
        None => Seq::empty(),
    }
}

/// Whether the cache already records `name` at the pinned `version`.
pub open spec fn cached_pin(deps: Seq<(String, Dependency)>, name: Seq<char>, version: Seq<char>) -> bool {
    version != "*"@ && match lookup(deps, name) {
        Some(d) => text::opt_view(d.version) == Some(version),
        None => false,
    }
}

/// The steps of one cargo entry: `cargo binstall -y <name>[@version] <args>`,
/// its post-install commands, the dependency record and its aliases.
pub open spec fn cargo_entry_view(name: Seq<char>, o: Option<CargoCustomConfig>, ctx: PlanContext) -> Seq<StepView> {
    let v = eff_version(o);
    if !eff_gate(o, ctx.os) || cached_pin(ctx.cache.deps.entries@, name, v) {
        Seq::empty()
    } else {
        seq![
            cmd_view(
                cargo_bin_view(ctx.home@),
                seq!["binstall"@, "-y"@, package_name_of(name, v)] + eff_args(o),
                false,
            ),
        ] + command_steps_view(eff_commands(o), None, ctx.os) + seq![
            StepView::RecordDep {
                name,
                version: Some(v),
                status: DependencyStatus::UpToDate,
                dep_type: DependencyType::Cargo,
            },
        ] + if eff_aliases(o).len() > 0 {
            seq![StepView::RecordAliases { aliases: pairs_view(eff_aliases(o)) }]
        } else {
            Seq::empty()
        }
    }
}

fn cargo_entry_steps(name: &str, o: &Option<CargoCustomConfig>, context: &PlanContext) -> (r: Vec<Step>)
    ensures
        steps_view(r@) == cargo_entry_view(name@, *o, *context),
{
    let mut steps: Vec<Step> = Vec::new();
    match o {
        None => {
            let args = vec![to_owned("binstall"), to_owned("-y"), to_owned(name)];
            assert(strs_view(args@) =~= seq!["binstall"@, "-y"@, package_name_of(name@, "*"@)]
                + Seq::<Seq<char>>::empty());
            push_step(&mut steps, Step::Command { program: cargo_bin(context), args, cwd: None, requires_admin: false });
            let empty: Vec<CommandSpec> = Vec::new();
            let more = command_steps(&empty, &None, context.os);
            assert(empty@ =~= Seq::<CommandSpec>::empty());
            append_steps(&mut steps, more);
            push_step(
                &mut steps,
                Step::RecordDep {
                    dep: Dependency::new(
                        to_owned(name),
                        Some(crate::parser::default_is_asterisk()),
                        DependencyStatus::UpToDate,
                        DependencyType::Cargo,
                    ),
                },
            );
            assert(steps_view(steps@) =~= cargo_entry_view(name@, *o, *context));
            steps
        },
        Some(c) => {
            if !c.is_installable(context.os) {
                assert(steps_view(steps@) =~= Seq::<StepView>::empty());
                return steps;
            }
            if !c.is_generic_version() {
                match context.cache.get_dep(name) {
                    Some(d) => match d.version() {
                        Some(v) => {
                            if text::str_eq(v.as_str(), c.version.as_str()) {
                                assert(steps_view(steps@) =~= Seq::<StepView>::empty());
                                return steps;
                            }
                        },
                        None => {},
                    },
                    None => {},
                }
            }
            let mut args = vec![to_owned("binstall"), to_owned("-y"), c.package_name(name)];
            assert(strs_view(args@) =~= seq!["binstall"@, "-y"@, package_name_of(name@, c.version@)]);
            text::extend_strings(&mut args, &c.args);
            push_step(&mut steps, Step::Command { program: cargo_bin(context), args, cwd: None, requires_admin: false });
            let more = command_steps(&c.commands, &None, context.os);
            append_steps(&mut steps, more);
            push_step(
                &mut steps,
                Step::RecordDep {
                    dep: Dependency::new(
                        to_owned(name),
                        Some(to_owned(c.version.as_str())),
                        DependencyStatus::UpToDate,
                        DependencyType::Cargo,
                    ),
                },
            );
            if c.alias.len() > 0 {
                let aliases = c.alias.clone_strings();
                assert(pairs_view(aliases.entries@) =~= pairs_view(c.alias.entries@));
                push_step(&mut steps, Step::RecordAliases { aliases });
            }
            assert(steps_view(steps@) =~= cargo_entry_view(name@, *o, *context));
            steps
        },
    }
}

/// The cargo entries other than `cargo-binstall`, in key order.
pub open spec fn cargo_rest_view(entries: Seq<(String, Option<CargoCustomConfig>)>, ctx: PlanContext) -> Seq<StepView>
    decreases entries.len(),
{
    if entries.len() == 0 {
        Seq::empty()
    } else {
        cargo_rest_view(entries.drop_last(), ctx) + if entries.last().0@ == "cargo-binstall"@ {
            Seq::empty()
        } else {
            cargo_entry_view(entries.last().0@, entries.last().1, ctx)
        }
    }
}

/// All cargo steps: `cargo-binstall` first, then the rest in key order.
pub open spec fn cargo_view(config: SwissConfig, ctx: PlanContext) -> Seq<StepView> {
    let entries = config.dependencies.cargo.entries@;
    (match lookup(entries, "cargo-binstall"@) {
        Some(o) => cargo_entry_view("cargo-binstall"@, o, ctx),
        None => Seq::empty(),
    }) + cargo_rest_view(entries, ctx)
}

/// Installs the cargo dependencies (see [`cargo_view`]).
pub fn cargo_steps(config: &SwissConfig, context: &PlanContext) -> (r: Vec<Step>)
    ensures
        steps_view(r@) == cargo_view(*config, *context),
{
    let mut steps: Vec<Step> = Vec::new();
    let ghost entries = config.dependencies.cargo.entries@;
    match config.dependencies.cargo.get("cargo-binstall") {
        Some(o) => {
            let more = cargo_entry_steps("cargo-binstall", o, context);
            append_steps(&mut steps, more);
        },
        None => {},
    }
    let ghost first = steps_view(steps@);
    assert(first == (match lookup(entries, "cargo-binstall"@) {
        Some(o) => cargo_entry_view("cargo-binstall"@, o, *context),
        None => Seq::empty(),
    }));
    let mut i: usize = 0;
    assert(steps_view(steps@) =~= first + cargo_rest_view(entries.take(0), *context));
    while i < config.dependencies.cargo.entries.len()
        invariant
            entries == config.dependencies.cargo.entries@,
            i <= entries.len(),
            steps_view(steps@) == first + cargo_rest_view(entries.take(i as int), *context),
        decreases config.dependencies.cargo.entries.len() - i,
    {
        let name = config.dependencies.cargo.entries[i].0.as_str();
        proof {
            let t = entries.take(i + 1);
            assert(t.drop_last() == entries.take(i as int));
            assert(t.last() == entries[i as int]);
        }
        if !text::str_eq(name, "cargo-binstall") {
            let more = cargo_entry_steps(name, &config.dependencies.cargo.entries[i].1, context);
            append_steps(&mut steps, more);
        }
        assert(steps_view(steps@) =~= first + cargo_rest_view(entries.take(i + 1), *context));
        i = i + 1;
    }
    assert(entries.take(entries.len() as int) == entries);
    steps
}

/// The version of a listed `cargo-binstall` entry, or `*`.
pub open spec fn binstall_pin(config: SwissConfig) -> Seq<char> {
    match lookup(config.dependencies.cargo.entries@, "cargo-binstall"@) {
        Some(o) => eff_version(o),
        None => "*"@,
    }
}

/// `cargo install --locked cargo-binstall[@version]` when later steps use
/// binstall and the host does not have it yet.
pub open spec fn bootstrap_view(config: SwissConfig, ctx: PlanContext, needed: bool) -> Seq<StepView> {
    if ctx.binstall_installed || !needed {
        Seq::empty()
    } else {
        seq![
            cmd_view(
                cargo_bin_view(ctx.home@),
                seq!["install"@, "--locked"@, package_name_of("cargo-binstall"@, binstall_pin(config))],
                false,
            ),
        ]
    }
}

/// Bootstraps cargo-binstall with plain `cargo install` (see [`bootstrap_view`]).
pub fn binstall_bootstrap_steps(config: &SwissConfig, context: &PlanContext, needed: bool) -> (r: Vec<Step>)
    ensures
        steps_view(r@) == bootstrap_view(*config, *context, needed),
{
    let mut steps: Vec<Step> = Vec::new();
    if context.binstall_installed || !needed {
        assert(steps_view(steps@) =~= Seq::<StepView>::empty());
        return steps;
    }
    let package = match config.dependencies.cargo.get("cargo-binstall") {
        Some(Some(c)) => c.package_name("cargo-binstall"),
        _ => to_owned("cargo-binstall"),
    };
    let args = vec![to_owned("install"), to_owned("--locked"), package];
    assert(strs_view(args@) =~= seq![
        "install"@,
        "--locked"@,
        package_name_of("cargo-binstall"@, binstall_pin(*config)),
    ]);
    push_step(&mut steps, Step::Command { program: cargo_bin(context), args, cwd: None, requires_admin: false });
    assert(steps_view(steps@) =~= bootstrap_view(*config, *context, needed));
    steps
}

/// Where custom dependencies live: `~/.config/swiss/crates`.
pub open spec fn modules_root_view(home: Seq<char>) -> Seq<char> {
    crate::paths::path_join(home, CUSTOM_MODULES_SUBDIR@)
}

/// The commands a custom dependency runs: `install` on first install;
/// afterwards `update`, falling back to `install`.
pub open spec fn custom_commands(dep: CustomDependency, installed: bool) -> Option<Vec<CommandSpec>> {
    if installed && dep.update is Some {
        dep.update
    } else {
        dep.install
    }
}

/// The steps of one custom dependency: checkout (or its directory), its
/// commands, the first-install hooks for `os`, and the dependency record.
pub open spec fn custom_entry_view(name: Seq<char>, dep: CustomDependency, ctx: PlanContext) -> Seq<StepView> {
    if !gate(
        ctx.os,
        crate::parser::gate_or_true(dep.linux),
        crate::parser::gate_or_true(dep.macos),
        crate::parser::gate_or_true(dep.windows),
    ) {
        Seq::empty()
    } else {
        let dir = crate::paths::path_join(modules_root_view(ctx.home@), name);
        let installed = lookup(ctx.cache.deps.entries@, name) is Some;
        (match dep.git {
            Some(g) => seq![
                StepView::GitSync {
                    repo: g.repo@,
                    branch: text::opt_view(g.branch),
                    depth: g.depth,
                    recursive: g.recursive,
                    dest: dir,
                },
            ],
            None => seq![StepView::EnsureDir { path: dir }],
        }) + (match custom_commands(dep, installed) {
            Some(c) => command_steps_view(c@, Some(dir), ctx.os),
            None => Seq::empty(),
        }) + (if installed {
            Seq::empty()
        } else {
            match dep.post_install {
                Some(h) => match h.for_os_view(ctx.os) {
                    Some(c) => command_steps_view(c@, Some(dir), ctx.os),
                    None => Seq::empty(),
                },
                None => Seq::empty(),
            }
        }) + seq![
            StepView::RecordDep {
                name,
                version: None,
                status: DependencyStatus::UpToDate,
                dep_type: DependencyType::Custom,
            },
        ]
    }
}

/// The custom dependencies' steps, in key order.
pub open spec fn custom_entries_view(entries: Seq<(String, CustomDependency)>, ctx: PlanContext) -> Seq<StepView>
    decreases entries.len(),
{
    if entries.len() == 0 {
        Seq::empty()
    } else {
        custom_entries_view(entries.drop_last(), ctx) + custom_entry_view(
            entries.last().0@,
            entries.last().1,
            ctx,
        )
    }
}

/// The modules root, then every custom dependency; nothing without any.
pub open spec fn custom_view(config: SwissConfig, ctx: PlanContext) -> Seq<StepView> {
    if config.dependencies.customs.entries@.len() == 0 {
        Seq::empty()
    } else {
        seq![StepView::EnsureDir { path: modules_root_view(ctx.home@) }] + custom_entries_view(
            config.dependencies.customs.entries@,
            ctx,
        )
    }
}

fn custom_entry_steps(name: &str, dep: &CustomDependency, context: &PlanContext, root: &String) -> (r: Vec<Step>)
    requires
        root@ == modules_root_view(context.home@),
    ensures
        steps_view(r@) == custom_entry_view(name@, *dep, *context),
{
    let mut steps: Vec<Step> = Vec::new();
    if !dep.is_installable(context.os) {
        assert(steps_view(steps@) =~= Seq::<StepView>::empty());
        return steps;
    }
    let module_dir = crate::paths::join_path(root.as_str(), name);
    let installed = context.cache.get_dep(name).is_some();
    match &dep.git {
        Some(git) => {
            push_step(
                &mut steps,
                Step::GitSync {
                    repo: to_owned(git.repo.as_str()),
                    branch: text::clone_opt(&git.branch),
                    depth: git.depth,
                    recursive: git.recursive,
                    dest: to_owned(module_dir.as_str()),
                },
            );
        },
        None => {
            push_step(&mut steps, Step::EnsureDir { path: to_owned(module_dir.as_str()) });
        },
    }
    let cwd = Some(to_owned(module_dir.as_str()));
    let commands: Option<&Vec<CommandSpec>> = if installed && dep.update.is_some() {
        dep.update.as_ref()
    } else {
        dep.install.as_ref()
    };
    match commands {
        Some(c) => {
            let more = command_steps(c, &cwd, context.os);
            append_steps(&mut steps, more);
        },
        None => {},
    }
    if !installed {
        match &dep.post_install {
            Some(hooks) => match hooks.for_os(context.os) {
                Some(c) => {
                    let more = command_steps(c, &cwd, context.os);
                    append_steps(&mut steps, more);
                },
                None => {},
            },
            None => {},
        }
    }
    push_step(
        &mut steps,
        Step::RecordDep {
            dep: Dependency::new(to_owned(name), None, DependencyStatus::UpToDate, DependencyType::Custom),
        },
    );
    assert(steps_view(steps@) =~= custom_entry_view(name@, *dep, *context));
    steps
}

/// Checkouts, hooks and records of the custom dependencies (see [`custom_view`]).
pub fn custom_steps(config: &SwissConfig, context: &PlanContext) -> (r: Result<Vec<Step>, PlanError>)
    ensures
        r matches Ok(v) && steps_view(v@) == custom_view(*config, *context),
{
    let mut steps: Vec<Step> = Vec::new();
    if config.dependencies.customs.len() == 0 {
        assert(steps_view(steps@) =~= Seq::<StepView>::empty());
        return Ok(steps);
    }
    let root = crate::paths::join_path(context.home.as_str(), CUSTOM_MODULES_SUBDIR);
    push_step(&mut steps, Step::EnsureDir { path: to_owned(root.as_str()) });
    let ghost entries = config.dependencies.customs.entries@;
    let ghost first = steps_view(steps@);
    let mut i: usize = 0;
    assert(steps_view(steps@) =~= first + custom_entries_view(entries.take(0), *context));
    while i < config.dependencies.customs.entries.len()
        invariant
            entries == config.dependencies.customs.entries@,
            root@ == modules_root_view(context.home@),
            first == seq![StepView::EnsureDir { path: modules_root_view(context.home@) }],
            i <= entries.len(),
            steps_view(steps@) == first + custom_entries_view(entries.take(i as int), *context),
        decreases config.dependencies.customs.entries.len() - i,
    {
        proof {
            let t = entries.take(i + 1);
            assert(t.drop_last() == entries.take(i as int));
            assert(t.last() == entries[i as int]);
        }
        let more = custom_entry_steps(
            config.dependencies.customs.entries[i].0.as_str(),
            &config.dependencies.customs.entries[i].1,
            context,
            &root,
        );
        append_steps(&mut steps, more);
        assert(steps_view(steps@) =~= first + custom_entries_view(entries.take(i + 1), *context));
        i = i + 1;
    }
    assert(entries.take(entries.len() as int) == entries);
    Ok(steps)
}

/// Reason given for a template the application did not load.
pub const TEMPLATE_NOT_LOADED: &'static str = "template was not loaded";

/// The bytes a file entry writes: the loaded `source` template or the
/// inline `content`; exactly one of the two must be set.
pub open spec fn file_content_view(spec: FileSpec, ctx: PlanContext) -> Result<Seq<u8>, PlanErrorView> {
    match (spec.source, spec.content) {
        (Some(_), Some(_)) => Err(PlanErrorView::FileSourceAndContent { dest: spec.dest@ }),
        (None, None) => Err(PlanErrorView::FileNoSource { dest: spec.dest@ }),
        (Some(source), None) => {
            let path = crate::paths::path_join(ctx.base_dir@, source@);
            match lookup(ctx.templates.entries@, source@) {
                Some(Ok(bytes)) => Ok(bytes@),
                Some(Err(reason)) => Err(PlanErrorView::TemplateUnreadable { path, reason: reason@ }),
                None => Err(PlanErrorView::TemplateUnreadable { path, reason: TEMPLATE_NOT_LOADED@ }),
            }
        },
        (None, Some(content)) => Ok(vstd::utf8::encode_utf8(content@)),
    }
}

fn copy_bytes(v: &Vec<u8>) -> (r: Vec<u8>)
    ensures
        r@ == v@,
{
    let mut r: Vec<u8> = Vec::new();
    let mut i: usize = 0;
    while i < v.len()
        invariant
            i <= v@.len(),
            r@ == v@.take(i as int),
        decreases v.len() - i,
    {
        r.push(v[i]);
        assert(r@ =~= v@.take(i + 1));
        i = i + 1;
    }
    assert(v@.take(v@.len() as int) =~= v@);
    r
}

/// The content of a file entry (see [`file_content_view`]).
pub fn file_content(spec: &FileSpec, context: &PlanContext) -> (r: Result<Vec<u8>, PlanError>)
    ensures
        match r {
            Ok(bytes) => file_content_view(*spec, *context) == Ok::<Seq<u8>, PlanErrorView>(bytes@),
            Err(e) => file_content_view(*spec, *context) == Err::<Seq<u8>, PlanErrorView>(e@),
        },
{
    match (&spec.source, &spec.content) {
        (Some(_), Some(_)) => Err(PlanError::FileSourceAndContent { dest: to_owned(spec.dest.as_str()) }),
        (None, None) => Err(PlanError::FileNoSource { dest: to_owned(spec.dest.as_str()) }),
        (Some(source), None) => {
            let path = crate::paths::join_path(context.base_dir.as_str(), source.as_str());
            match context.templates.get(source.as_str()) {
                Some(Ok(bytes)) => Ok(copy_bytes(bytes)),
                Some(Err(reason)) => Err(PlanError::TemplateUnreadable { path, reason: to_owned(reason.as_str()) }),
                None => Err(PlanError::TemplateUnreadable { path, reason: to_owned(TEMPLATE_NOT_LOADED) }),
            }
        },
        (None, Some(content)) => Ok(text::utf8_bytes(content.as_str())),
    }
}

/// The write step of one file entry, if it applies to the OS.
pub open spec fn file_entry_view(spec: FileSpec, ctx: PlanContext) -> Result<Seq<StepView>, PlanErrorView> {
    if !crate::parser::applies_to_view(spec.os@, ctx.os) {
        Ok(Seq::empty())
    } else {
        match file_content_view(spec, ctx) {
            Err(e) => Err(e),
            Ok(bytes) => Ok(
                seq![
                    StepView::WriteFile {
                        path: crate::expand::expand_path_view(spec.dest@, ctx.home@, ctx.env.entries@, ctx.os),
                        content: bytes,
                        overwrite: spec.overwrite,
                        append_if_missing: spec.append_if_missing,
                        backup: spec.backup,
                        requires_admin: spec.admin,
                    },
                ],
            ),
        }
    }
}

/// The write steps of the file entries, stopping at the first error.
pub open spec fn files_view(files: Seq<FileSpec>, ctx: PlanContext) -> Result<Seq<StepView>, PlanErrorView>
    decreases files.len(),
{
    if files.len() == 0 {
        Ok(Seq::empty())
    } else {
        match files_view(files.drop_last(), ctx) {
            Err(e) => Err(e),
            Ok(prev) => match file_entry_view(files.last(), ctx) {
                Err(e) => Err(e),
                Ok(more) => Ok(prev + more),
            },
        }
    }
}

/// Once a prefix of the files fails, the whole list fails the same way.
proof fn lemma_files_error_sticks(files: Seq<FileSpec>, ctx: PlanContext, n: int)
    requires
        0 <= n <= files.len(),
        files_view(files.take(n), ctx) is Err,
    ensures
        files_view(files, ctx) == files_view(files.take(n), ctx),
    decreases files.len() - n,
{
    if n < files.len() {
        let t = files.take(n + 1);
        assert(t.drop_last() == files.take(n));
        lemma_files_error_sticks(files, ctx, n + 1);
    } else {
        assert(files.take(n) == files);
    }
}

/// The write steps of the `files` section (see [`files_view`]).
pub fn file_steps(config: &SwissConfig, context: &PlanContext) -> (r: Result<Vec<Step>, PlanError>)
    ensures
        crate::error::result_view(r, |v: Vec<Step>| steps_view(v@)) == files_view(config.files@, *context),
{
    let mut steps: Vec<Step> = Vec::new();
    let mut i: usize = 0;
    assert(steps_view(steps@) =~= Seq::<StepView>::empty());
    while i < config.files.len()
        invariant
            i <= config.files@.len(),
            files_view(config.files@.take(i as int), *context) == Ok::<Seq<StepView>, PlanErrorView>(
                steps_view(steps@),
            ),
        decreases config.files.len() - i,
    {
        let spec = &config.files[i];
        let ghost prev = steps_view(steps@);
        proof {
            let t = config.files@.take(i + 1);
            assert(t.drop_last() == config.files@.take(i as int));
            assert(t.last() == config.files@[i as int]);
        }
        if spec.applies_to(context.os) {
            match file_content(spec, context) {
                Ok(content) => {
                    let path = crate::expand::expand_path(spec.dest.as_str(), context.home.as_str(), &context.env, context.os);
                    let step = Step::WriteFile {
                        path,
                        content,
                        overwrite: spec.overwrite,
                        append_if_missing: spec.append_if_missing,
                        backup: spec.backup,
                        requires_admin: spec.admin,
                    };
                    assert(file_entry_view(*spec, *context) == Ok::<Seq<StepView>, PlanErrorView>(seq![step@]));
                    push_step(&mut steps, step);
                    assert(steps_view(steps@) =~= prev + seq![step@]);
                },
                Err(e) => {
                    proof {
                        lemma_files_error_sticks(config.files@, *context, i as int + 1);
                    }
                    return Err(e);
                },
            }
        } else {
            assert(file_entry_view(*spec, *context) == Ok::<Seq<StepView>, PlanErrorView>(Seq::empty()));
            assert(prev =~= prev + Seq::<StepView>::empty());
        }
        i = i + 1;
    }
    assert(config.files@.take(config.files@.len() as int) == config.files@);
    Ok(steps)
}

/// `git clone [--depth N] [--branch B] [--recursive] <repo> <dest>`.
pub open spec fn git_clone_view(git: GitConfig, dest: Seq<char>) -> Seq<Seq<char>> {
    seq!["clone"@] + (match git.depth {
        Some(d) => seq!["--depth"@, text::decimal(d as nat)],
        None => Seq::empty(),
    }) + (match git.branch {
        Some(b) => seq!["--branch"@, b@],
        None => Seq::empty(),
    }) + (if git.recursive {
        seq!["--recursive"@]
    } else {
        Seq::empty()
    }) + seq![git.repo@, dest]
}

/// The arguments of the first clone of a git checkout: optional checkout
/// flags before the repository and destination.
pub fn git_clone_args(git: &GitConfig, dest: &str) -> (r: Vec<String>)
    ensures
        strs_view(r@) == git_clone_view(*git, dest@),
{
    let mut args = vec![to_owned("clone")];
    let ghost a0 = strs_view(args@);
    match git.depth {
        Some(d) => {
            args.push(to_owned("--depth"));
            args.push(decimal_string(d as u64));
        },
        None => {},
    }
    let ghost a1 = strs_view(args@);
    assert(a1 =~= a0 + (match git.depth {
        Some(d) => seq!["--depth"@, text::decimal(d as nat)],
        None => Seq::<Seq<char>>::empty(),
    }));
    match &git.branch {
        Some(b) => {
            args.push(to_owned("--branch"));
            args.push(to_owned(b.as_str()));
        },
        None => {},
    }
    let ghost a2 = strs_view(args@);
    assert(a2 =~= a1 + (match git.branch {
        Some(b) => seq!["--branch"@, b@],
        None => Seq::<Seq<char>>::empty(),
    }));
    if git.recursive {
        args.push(to_owned("--recursive"));
    }
    let ghost a3 = strs_view(args@);
    assert(a3 =~= a2 + (if git.recursive {
        seq!["--recursive"@]
    } else {
        Seq::<Seq<char>>::empty()
    }));
    args.push(to_owned(git.repo.as_str()));
    args.push(to_owned(dest));
    assert(strs_view(args@) =~= a3 + seq![git.repo@, dest@]);
    assert(strs_view(args@) =~= git_clone_view(*git, dest@));
    args
}

/// The whole plan of a manifest, or the first error: environment checks,
/// then the file entries, then the shells.
pub open spec fn plan_view(config: SwissConfig, ctx: PlanContext) -> Result<Seq<StepView>, PlanErrorView> {
    match env_error(config.env.entries@, ctx.env.entries@) {
        Some(e) => Err(e),
        None => match files_view(config.files@, ctx) {
            Err(e) => Err(e),
            Ok(files) => match crate::shellgen::shell_steps_view(config, ctx.home@, config.shells.entries@) {
                Err(e) => Err(e),
                Ok(shells) => {
                    let nu = nushell_view(config, ctx);
                    let cargo = cargo_view(config, ctx);
                    Ok(
                        package_manager_view(config.package_manager, ctx.os)
                            + crate::shellgen::shell_package_view(
                            config.shells.entries@,
                            ctx.os,
                            strs_view(ctx.available_shells@),
                        ) + rust_installer_view(config, ctx) + rust_toolchain_view(config.rust)
                            + rust_component_view(config.rust) + bootstrap_view(
                            config,
                            ctx,
                            nu.len() > 0 || cargo.len() > 0,
                        ) + nu + cargo + custom_view(config, ctx) + files + shells,
                    )
                },
            },
        },
    }
}

/// Builds the full execution plan from a loaded manifest. Pure: templates
/// and the environment come in through the context.
pub fn build_plan(manifest: &LoadedManifest, context: &PlanContext) -> (r: Result<Plan, PlanError>)
    ensures
        crate::error::result_view(r, |p: Plan| steps_view(p.steps@)) == plan_view(manifest.config, *context),
{
    let config = &manifest.config;
    validate_env_requirements(config, context)?;
    let files = file_steps(config, context)?;
    let shells = crate::shellgen::shell_steps(config, context)?;
    let mut steps: Vec<Step> = Vec::new();
    append_steps(&mut steps, package_manager_steps(config, context.os));
    let packages = crate::shellgen::shell_package_steps(config, context);
    match packages {
        Ok(p) => append_steps(&mut steps, p),
        Err(e) => {
            return Err(e);
        },
    }
    append_steps(&mut steps, rust_installer_steps(config, context));
    append_steps(&mut steps, rust_toolchain_steps(config));
    append_steps(&mut steps, rust_component_steps(config));
    let nu = nushell_steps(config, context);
    let cargo = cargo_steps(config, context);
    let needed = nu.len() > 0 || cargo.len() > 0;
    append_steps(&mut steps, binstall_bootstrap_steps(config, context, needed));
    append_steps(&mut steps, nu);
    append_steps(&mut steps, cargo);
    let customs = custom_steps(config, context);
    match customs {
        Ok(c) => append_steps(&mut steps, c),
        Err(e) => {
            return Err(e);
        },
    }
    append_steps(&mut steps, files);
    append_steps(&mut steps, shells);
    Ok(Plan { steps })
}

/// `--force-files` law: forcing twice is forcing once.
pub proof fn lemma_force_idempotent(steps: Seq<StepView>)
    ensures
        steps.map_values(|s: StepView| forced(s)).map_values(|s: StepView| forced(s)) == steps.map_values(
            |s: StepView| forced(s),
        ),
{
    assert(steps.map_values(|s: StepView| forced(s)).map_values(|s: StepView| forced(s)) =~= steps.map_values(
        |s: StepView| forced(s),
    ));
}

/// `--force-files` law: steps other than writes are left as they are, and
/// a write keeps its path, content and modes but overwrites.
pub proof fn lemma_force_touches_only_writes(s: StepView)
    ensures
        !(s is WriteFile) ==> forced(s) == s,
        s is WriteFile ==> forced(s) == (StepView::WriteFile {
            path: s->WriteFile_path,
            content: s->WriteFile_content,
            overwrite: true,
            append_if_missing: s->WriteFile_append_if_missing,
            backup: s->WriteFile_backup,
            requires_admin: s->WriteFile_requires_admin,
        }),
{
}

/// Law: `cargo-binstall` bootstraps the rest, so when the manifest lists it
/// and it is to be installed, the cargo steps begin with its installation.
pub proof fn lemma_binstall_planned_first(config: SwissConfig, ctx: PlanContext, o: Option<CargoCustomConfig>)
    requires
        lookup(config.dependencies.cargo.entries@, "cargo-binstall"@) == Some(o),
        eff_gate(o, ctx.os),
        !cached_pin(ctx.cache.deps.entries@, "cargo-binstall"@, eff_version(o)),
    ensures
        cargo_view(config, ctx).len() > 0,
        cargo_view(config, ctx)[0] == cmd_view(
            cargo_bin_view(ctx.home@),
            seq!["binstall"@, "-y"@, package_name_of("cargo-binstall"@, eff_version(o))] + eff_args(o),
            false,
        ),
{
    let first = cargo_entry_view("cargo-binstall"@, o, ctx);
    assert(first[0] == cmd_view(
        cargo_bin_view(ctx.home@),
        seq!["binstall"@, "-y"@, package_name_of("cargo-binstall"@, eff_version(o))] + eff_args(o),
        false,
    ));
    assert((first + cargo_rest_view(config.dependencies.cargo.entries@, ctx))[0] == first[0]);
}

/// Command lists only produce shell command steps.
pub proof fn lemma_command_steps_are_shell_commands(cmds: Seq<CommandSpec>, cwd: Option<Seq<char>>, os: Os)
    ensures
        forall|i: int|
            0 <= i < command_steps_view(cmds, cwd, os).len() ==> #[trigger] command_steps_view(cmds, cwd, os)[i] is ShellCommand,
    decreases cmds.len(),
{
    if cmds.len() > 0 {
        lemma_command_steps_are_shell_commands(cmds.drop_last(), cwd, os);
        let prev = command_steps_view(cmds.drop_last(), cwd, os);
        let all = command_steps_view(cmds, cwd, os);
        assert forall|i: int| 0 <= i < all.len() implies #[trigger] all[i] is ShellCommand by {
            if i < prev.len() {
                assert(all[i] == prev[i]);
            }
        }
    }
}

/// Law: after a run records a pinned cargo dependency, planning it again
/// does nothing, since the recorded version matches the pin.
pub proof fn lemma_recorded_pin_is_not_replanned(
    name: Seq<char>,
    o: Option<CargoCustomConfig>,
    ctx: PlanContext,
    later: PlanContext,
    k: int,
)
    requires
        eff_version(o) != "*"@,
        0 <= k < cargo_entry_view(name, o, ctx).len(),
        cargo_entry_view(name, o, ctx)[k] is RecordDep,
        cargo_entry_view(name, o, ctx)[k]->RecordDep_name == name,
        lookup(later.cache.deps.entries@, name) is Some,
        text::opt_view(lookup(later.cache.deps.entries@, name)->0.version) == cargo_entry_view(name, o, ctx)[k]->RecordDep_version,
        later.os == ctx.os,
    ensures
        cargo_entry_view(name, o, later) == Seq::<StepView>::empty(),
{
    let steps = cargo_entry_view(name, o, ctx);
    let v = eff_version(o);
    let head = seq![
        cmd_view(cargo_bin_view(ctx.home@), seq!["binstall"@, "-y"@, package_name_of(name, v)] + eff_args(o), false),
    ];
    let cmds = command_steps_view(eff_commands(o), None, ctx.os);
    lemma_command_steps_are_shell_commands(eff_commands(o), None, ctx.os);
    let record = StepView::RecordDep {
        name,
        version: Some(v),
        status: DependencyStatus::UpToDate,
        dep_type: DependencyType::Cargo,
    };
    let tail: Seq<StepView> = if eff_aliases(o).len() > 0 {
        seq![StepView::RecordAliases { aliases: pairs_view(eff_aliases(o)) }]
    } else {
        Seq::empty()
    };
    assert(steps == head + cmds + seq![record] + tail);
    if k == 0 {
        assert(steps[0] == head[0]);
    } else if k <= cmds.len() {
        assert(steps[k] == cmds[k - 1]);
    } else if k == cmds.len() + 1 {
        assert(steps[k] == record);
    } else {
        assert(steps[k] == tail[k - cmds.len() - 2]);
    }
    assert(cached_pin(later.cache.deps.entries@, name, v));
}


/// Each non-blank command of a list becomes a shell step in the list's
/// steps, in the given directory.
pub proof fn lemma_command_steps_cover(cmds: Seq<CommandSpec>, cwd: Option<Seq<char>>, os: Os, i: int)
    requires
        0 <= i < cmds.len(),
        text::trim_seq(cmds[i].run_view()).len() != 0,
    ensures
        command_steps_view(cmds, cwd, os).contains(
            StepView::ShellCommand {
                shell: cmds[i].shell_view(os),
                command: cmds[i].run_view(),
                cwd,
                requires_admin: cmds[i].admin_view(),
            },
        ),
    decreases cmds.len(),
{
    let st = StepView::ShellCommand {
        shell: cmds[i].shell_view(os),
        command: cmds[i].run_view(),
        cwd,
        requires_admin: cmds[i].admin_view(),
    };
    let rest = command_steps_view(cmds.drop_last(), cwd, os);
    let c = cmds.last();
    let more = if text::trim_seq(c.run_view()).len() == 0 {
        Seq::<StepView>::empty()
    } else {
        seq![
            StepView::ShellCommand {
                shell: c.shell_view(os),
                command: c.run_view(),
                cwd,
                requires_admin: c.admin_view(),
            },
        ]
    };
    assert(command_steps_view(cmds, cwd, os) == rest + more);
    if i < cmds.len() - 1 {
        lemma_command_steps_cover(cmds.drop_last(), cwd, os, i);
        assert(cmds.drop_last()[i] == cmds[i]);
        let k = choose|k: int| 0 <= k < rest.len() && rest[k] == st;
        assert((rest + more)[k] == st);
    } else {
        assert((rest + more)[rest.len() as int] == st);
    }
}

/// Post-install hooks run on first install only: for a custom dependency
/// that the cache already records, the planned steps are exactly those of
/// the same dependency without any post-install hook.
pub proof fn lemma_recorded_custom_skips_hooks(name: Seq<char>, dep: CustomDependency, ctx: PlanContext)
    requires
        lookup(ctx.cache.deps.entries@, name) is Some,
    ensures
        custom_entry_view(name, dep, ctx) == custom_entry_view(
            name,
            CustomDependency { post_install: None, ..dep },
            ctx,
        ),
{
}

/// On first install (the cache does not record the dependency yet), every
/// non-blank post-install command for the host OS is planned, run in the
/// dependency's directory.
pub proof fn lemma_first_install_runs_hooks(name: Seq<char>, dep: CustomDependency, ctx: PlanContext, i: int)
    requires
        lookup(ctx.cache.deps.entries@, name) is None,
        gate(
            ctx.os,
            crate::parser::gate_or_true(dep.linux),
            crate::parser::gate_or_true(dep.macos),
            crate::parser::gate_or_true(dep.windows),
        ),
        dep.post_install matches Some(h) && h.for_os_view(ctx.os) matches Some(c) && 0 <= i < c@.len()
            && text::trim_seq(c@[i].run_view()).len() != 0,
    ensures
        ({
            let c = dep.post_install->0.for_os_view(ctx.os)->0@;
            custom_entry_view(name, dep, ctx).contains(
                StepView::ShellCommand {
                    shell: c[i].shell_view(ctx.os),
                    command: c[i].run_view(),
                    cwd: Some(crate::paths::path_join(modules_root_view(ctx.home@), name)),
                    requires_admin: c[i].admin_view(),
                },
            )
        }),
{
    let c = dep.post_install->0.for_os_view(ctx.os)->0@;
    let dir = crate::paths::path_join(modules_root_view(ctx.home@), name);
    let st = StepView::ShellCommand {
        shell: c[i].shell_view(ctx.os),
        command: c[i].run_view(),
        cwd: Some(dir),
        requires_admin: c[i].admin_view(),
    };
    lemma_command_steps_cover(c, Some(dir), ctx.os, i);
    let hooks = command_steps_view(c, Some(dir), ctx.os);
    let a = (match dep.git {
        Some(g) => seq![
            StepView::GitSync {
                repo: g.repo@,
                branch: text::opt_view(g.branch),
                depth: g.depth,
                recursive: g.recursive,
                dest: dir,
            },
        ],
        None => seq![StepView::EnsureDir { path: dir }],
    }) + (match custom_commands(dep, false) {
        Some(cc) => command_steps_view(cc@, Some(dir), ctx.os),
        None => Seq::empty(),
    });
    let tail = seq![
        StepView::RecordDep {
            name,
            version: None,
            status: DependencyStatus::UpToDate,
            dep_type: DependencyType::Custom,
        },
    ];
    assert(custom_entry_view(name, dep, ctx) == a + hooks + tail);
    let k = choose|k: int| 0 <= k < hooks.len() && hooks[k] == st;
    assert((a + hooks + tail)[a.len() + k] == st);
}

} // verus!
