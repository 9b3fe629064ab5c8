//! The manifest model: what a Swiss YAML manifest declares, after parsing.
use crate::strmap::{StrMap, lookup};
use crate::text;
use crate::text::{str_eq, to_owned};
use vstd::prelude::*;

verus! {

/// Operating systems supported by manifest gates.
#[derive(Debug, Clone, Copy, PartialEq, Eq, Structural)]
pub enum Os {
    Linux,
    Macos,
    Windows,
}

/// The manifest name of an OS.
pub open spec fn os_name(os: Os) -> Seq<char> {
    match os {
        Os::Linux => "linux"@,
        Os::Macos => "macos"@,
        Os::Windows => "windows"@,
    }
}

impl Os {
    /// The manifest name of this OS (`linux`, `macos`, `windows`).
    pub fn name(&self) -> (r: &'static str)
        ensures
            r@ == os_name(*self),
    {
        match self {
            Os::Linux => "linux",
            Os::Macos => "macos",
            Os::Windows => "windows",
        }
    }
}

/// The shell plain command entries run through on `os`: the portable system
/// shell, never one Swiss may not have installed yet.
pub open spec fn default_shell_of(os: Os) -> Seq<char> {
    match os {
        Os::Windows => "powershell"@,
        _ => "sh"@,
    }
}

/// Exec counterpart of [`default_shell_of`].
pub fn default_command_shell(os: Os) -> (r: &'static str)
    ensures
        r@ == default_shell_of(os),
{
    match os {
        Os::Windows => "powershell",
        _ => "sh",
    }
}

/// Version marker meaning "any version" for cargo dependencies.
pub fn default_is_asterisk() -> (r: String)
    ensures
        r@ == "*"@,
{
    to_owned("*")
}

/// A command entry: either a plain string or a detailed form with explicit
/// shell and admin requirement.
#[derive(Debug, PartialEq)]
pub enum CommandSpec {
    Plain(String),
    Detailed { run: String, shell: Option<String>, requires_admin: bool },
}

impl Clone for CommandSpec {
    fn clone(&self) -> (r: Self)
        ensures
            r == *self,
    {
        match self {
            CommandSpec::Plain(run) => CommandSpec::Plain(run.clone()),
            CommandSpec::Detailed { run, shell, requires_admin } => CommandSpec::Detailed {
                run: run.clone(),
                shell: match shell {
                    Some(s) => Some(s.clone()),
                    None => None,
                },
                requires_admin: *requires_admin,
            },
        }
    }
}

impl CommandSpec {
    /// The command text.
    pub open spec fn run_view(&self) -> Seq<char> {
        match self {
            CommandSpec::Plain(run) => run@,
            CommandSpec::Detailed { run, .. } => run@,
        }
    }

    /// The shell the command runs through on `os`.
    pub open spec fn shell_view(&self, os: Os) -> Seq<char> {
        match self {
            CommandSpec::Plain(_) => default_shell_of(os),
            CommandSpec::Detailed { shell, .. } => match shell {
                Some(s) => s@,
                None => default_shell_of(os),
            },
        }
    }

    /// Whether the command needs administrator rights.
    pub open spec fn admin_view(&self) -> bool {
        match self {
            CommandSpec::Plain(_) => false,
            CommandSpec::Detailed { requires_admin, .. } => *requires_admin,
        }
    }

    pub fn run(&self) -> (r: &str)
        ensures
            r@ == self.run_view(),
    {
        match self {
            CommandSpec::Plain(run) => run.as_str(),
            CommandSpec::Detailed { run, .. } => run.as_str(),
        }
    }

    /// The shell the command runs through; plain entries use the system
    /// shell of `os`.
    pub fn shell(&self, os: Os) -> (r: &str)
        ensures
            r@ == self.shell_view(os),
    {
        match self {
            CommandSpec::Plain(_) => default_command_shell(os),
            CommandSpec::Detailed { shell, .. } => match shell {
                Some(s) => s.as_str(),
                None => default_command_shell(os),
            },
        }
    }

    pub fn requires_admin(&self) -> (r: bool)
        ensures
            r == self.admin_view(),
    {
        match self {
            CommandSpec::Plain(_) => false,
            CommandSpec::Detailed { requires_admin, .. } => *requires_admin,
        }
    }

    /// Whether the command text is blank.
    pub fn is_empty(&self) -> (r: bool)
        ensures
            r == (text::trim_seq(self.run_view()).len() == 0),
    {
        let t = text::trim(self.run());
        t.unicode_len() == 0
    }
}

/// Optional Nushell management; `version` pins a release, absent = latest.
#[derive(Debug, Clone, PartialEq)]
pub struct NushellConfig {
    pub version: Option<String>,
}

impl Default for NushellConfig {
    fn default() -> (r: Self)
        ensures
            r.version is None,
    {
        NushellConfig { version: None }
    }
}

/// Per-OS command lists (`post-install`, rust `installer`).
#[derive(Debug, Clone, PartialEq)]
pub struct OsCommands {
    pub windows: Option<Vec<CommandSpec>>,
    pub linux: Option<Vec<CommandSpec>>,
    pub macos: Option<Vec<CommandSpec>>,
}

pub type OsScripts = OsCommands;

impl Default for OsCommands {
    fn default() -> (r: Self)
        ensures
            r.windows is None,
            r.linux is None,
            r.macos is None,
    {
        OsCommands { windows: None, linux: None, macos: None }
    }
}

impl OsCommands {
    /// The commands for `os`; macOS falls back to the linux ones.
    pub open spec fn for_os_view(&self, os: Os) -> Option<Vec<CommandSpec>> {
        match os {
            Os::Linux => self.linux,
            Os::Windows => self.windows,
            Os::Macos => if self.macos is Some {
                self.macos
            } else {
                self.linux
            },
        }
    }

    pub fn for_os(&self, os: Os) -> (r: Option<&Vec<CommandSpec>>)
        ensures
            match r {
                Some(v) => self.for_os_view(os) == Some(*v),
                None => self.for_os_view(os) is None,
            },
    {
        match os {
            Os::Linux => self.linux.as_ref(),
            Os::Windows => self.windows.as_ref(),
            Os::Macos => match &self.macos {
                Some(v) => Some(v),
                None => self.linux.as_ref(),
            },
        }
    }
}

#[derive(Debug, Clone, PartialEq)]
pub struct RustConfig {
    pub toolchain: String,
    pub components: Vec<String>,
    pub installer: OsScripts,
}

impl Default for RustConfig {
    fn default() -> (r: Self)
        ensures
            r.toolchain@.len() == 0,
            r.components@.len() == 0,
            r.installer.windows is None,
            r.installer.linux is None,
            r.installer.macos is None,
    {
        RustConfig { toolchain: String::new(), components: Vec::new(), installer: OsCommands::default() }
    }
}

/// A cargo dependency, installed through `cargo binstall`.
#[derive(Debug, Clone, PartialEq)]
pub struct CargoCustomConfig {
    pub version: String,
    pub windows: bool,
    pub linux: bool,
    pub macos: bool,
    pub alias: StrMap<String>,
    pub args: Vec<String>,
    pub commands: Vec<CommandSpec>,
}

impl Default for CargoCustomConfig {
    fn default() -> (r: Self)
        ensures
            r.version@ == "*"@,
            r.windows && r.linux && r.macos,
            r.alias.entries@.len() == 0,
            r.args@.len() == 0,
            r.commands@.len() == 0,
    {
        CargoCustomConfig {
            version: default_is_asterisk(),
            windows: true,
            linux: true,
            macos: true,
            alias: StrMap::new(),
            args: Vec::new(),
            commands: Vec::new(),
        }
    }
}

/// Whether a dependency's gates allow `os`.
pub open spec fn gate(os: Os, linux: bool, macos: bool, windows: bool) -> bool {
    match os {
        Os::Linux => linux,
        Os::Macos => macos,
        Os::Windows => windows,
    }
}

/// `name` or `name@version`.
pub open spec fn package_name_of(crate_name: Seq<char>, version: Seq<char>) -> Seq<char> {
    if version == "*"@ {
        crate_name
    } else {
        crate_name + "@"@ + version
    }
}

impl CargoCustomConfig {
    /// Whether the version is the "any" marker `*`.
    pub fn is_generic_version(&self) -> (r: bool)
        ensures
            r == (self.version@ == "*"@),
    {
        str_eq(self.version.as_str(), "*")
    }

    /// `crate_name`, or `crate_name@version` for a pinned version.
    pub fn package_name(&self, crate_name: &str) -> (r: String)
        ensures
            r@ == package_name_of(crate_name@, self.version@),
    {
        if self.is_generic_version() {
            to_owned(crate_name)
        } else {
            let mut r = to_owned(crate_name);
            r.append("@");
            r.append(self.version.as_str());
            r
        }
    }

    pub fn is_installable(&self, os: Os) -> (r: bool)
        ensures
            r == gate(os, self.linux, self.macos, self.windows),
    {
        match os {
            Os::Linux => self.linux,
            Os::Macos => self.macos,
            Os::Windows => self.windows,
        }
    }
}

#[derive(Debug, Clone, PartialEq)]
pub struct GitConfig {
    pub repo: String,
    pub branch: Option<String>,
    pub depth: Option<u32>,
    pub recursive: bool,
}

/// A git-sourced or scripted tool with install/update hooks.
#[derive(Debug, Clone, PartialEq)]
pub struct CustomDependency {
    pub update: Option<Vec<CommandSpec>>,
    pub install: Option<Vec<CommandSpec>>,
    pub git: Option<GitConfig>,
    pub windows: Option<bool>,
    pub linux: Option<bool>,
    pub macos: Option<bool>,
    pub post_install: Option<OsCommands>,
}

impl Default for CustomDependency {
    fn default() -> (r: Self)
        ensures
            r.update is None,
            r.install is None,
            r.git is None,
            r.windows is None,
            r.linux is None,
            r.macos is None,
            r.post_install is None,
    {
        CustomDependency {
            update: None,
            install: None,
            git: None,
            windows: None,
            linux: None,
            macos: None,
            post_install: None,
        }
    }
}

/// An OS gate that defaults to `true`.
pub open spec fn gate_or_true(g: Option<bool>) -> bool {
    match g {
        Some(b) => b,
        None => true,
    }
}

impl CustomDependency {
    pub fn is_installable(&self, os: Os) -> (r: bool)
        ensures
            r == gate(
                os,
                gate_or_true(self.linux),
                gate_or_true(self.macos),
                gate_or_true(self.windows),
            ),
    {
        match os {
            Os::Linux => self.linux.unwrap_or(true),
            Os::Macos => self.macos.unwrap_or(true),
            Os::Windows => self.windows.unwrap_or(true),
        }
    }
}

#[derive(Debug, Clone, PartialEq)]
pub struct Dependencies {
    pub cargo: StrMap<Option<CargoCustomConfig>>,
    pub customs: StrMap<CustomDependency>,
}

impl Default for Dependencies {
    fn default() -> (r: Self)
        ensures
            r.cargo.entries@.len() == 0,
            r.customs.entries@.len() == 0,
    {
        Dependencies { cargo: StrMap::new(), customs: StrMap::new() }
    }
}

#[derive(Debug, Clone, PartialEq)]
pub struct PackageManagerBackendConfig {
    pub packages: Vec<String>,
    /// Run the manager refresh (e.g. `apt-get update`) before installing.
    pub update_index: bool,
}

impl Default for PackageManagerBackendConfig {
    fn default() -> (r: Self)
        ensures
            r.packages@.len() == 0,
            !r.update_index,
    {
        PackageManagerBackendConfig { packages: Vec::new(), update_index: false }
    }
}

#[derive(Debug, Clone, PartialEq)]
pub struct LinuxPackageManagerConfig {
    pub apt: Option<PackageManagerBackendConfig>,
}

#[derive(Debug, Clone, PartialEq)]
pub struct WindowsPackageManagerConfig {
    pub scoop: Option<PackageManagerBackendConfig>,
}

#[derive(Debug, Clone, PartialEq)]
pub struct MacosPackageManagerConfig {
    pub brew: Option<PackageManagerBackendConfig>,
}

#[derive(Debug, Clone, PartialEq)]
pub struct PackageManagerConfig {
    pub linux: Option<LinuxPackageManagerConfig>,
    pub windows: Option<WindowsPackageManagerConfig>,
    pub macos: Option<MacosPackageManagerConfig>,
}

impl Default for PackageManagerConfig {
    fn default() -> (r: Self)
        ensures
            r.linux is None,
            r.windows is None,
            r.macos is None,
    {
        PackageManagerConfig { linux: None, windows: None, macos: None }
    }
}

/// Environment requirements: references, never secret values.
#[derive(Debug, Clone, PartialEq)]
pub struct EnvRequirement {
    pub from_env: Option<String>,
    pub required: bool,
    pub default: Option<String>,
}

impl Default for EnvRequirement {
    fn default() -> (r: Self)
        ensures
            r.from_env is None,
            !r.required,
            r.default is None,
    {
        EnvRequirement { from_env: None, required: false, default: None }
    }
}

/// A file declared by the manifest: exactly one of `source` (relative to
/// the manifest file) or inline `content`.
#[derive(Debug, Clone, PartialEq)]
pub struct FileSpec {
    pub source: Option<String>,
    pub content: Option<String>,
    pub dest: String,
    pub overwrite: bool,
    pub append_if_missing: bool,
    pub backup: bool,
    /// Write the file with elevated privileges.
    pub admin: bool,
    /// Restrict to these OS names; empty = all.
    pub os: Vec<String>,
}

impl Default for FileSpec {
    fn default() -> (r: Self)
        ensures
            r.source is None,
            r.content is None,
            r.dest@.len() == 0,
            !r.overwrite && !r.append_if_missing && !r.backup && !r.admin,
            r.os@.len() == 0,
    {
        FileSpec {
            source: None,
            content: None,
            dest: String::new(),
            overwrite: false,
            append_if_missing: false,
            backup: false,
            admin: false,
            os: Vec::new(),
        }
    }
}

/// Whether a file entry's OS list admits `os`.
pub open spec fn applies_to_view(os_list: Seq<String>, os: Os) -> bool {
    os_list.len() == 0 || exists|i: int| 0 <= i < os_list.len() && os_list[i]@ == os_name(os)
}

impl FileSpec {
    pub fn applies_to(&self, os: Os) -> (r: bool)
        ensures
            r == applies_to_view(self.os@, os),
    {
        if self.os.len() == 0 {
            return true;
        }
        let name = os.name();
        let mut i: usize = 0;
        while i < self.os.len()
            invariant
                i <= self.os@.len(),
                name@ == os_name(os),
                forall|j: int| 0 <= j < i ==> self.os@[j]@ != os_name(os),
            decreases self.os.len() - i,
        {
            if str_eq(self.os[i].as_str(), name) {
                return true;
            }
            i = i + 1;
        }
        false
    }
}

/// How a shell gets wired to Swiss.
#[derive(Debug, Clone, Copy, PartialEq, Eq, Structural)]
pub enum ShellMode {
    ManagedLoader,
    Snippet,
    Profile,
    Print,
}

#[derive(Debug, Clone, PartialEq)]
pub struct ShellTargetConfig {
    pub enabled: bool,
    pub mode: Option<ShellMode>,
    pub target: Option<String>,
    pub modules: Vec<String>,
}

impl Default for ShellTargetConfig {
    fn default() -> (r: Self)
        ensures
            r.enabled,
            r.mode is None,
            r.target is None,
            r.modules@.len() == 0,
    {
        ShellTargetConfig { enabled: true, mode: None, target: None, modules: Vec::new() }
    }
}

/// Value of a shell module environment variable.
#[derive(Debug, Clone, PartialEq)]
pub enum EnvValue {
    Plain(String),
    PathOps { prepend: Vec<String>, append: Vec<String> },
}

/// A reusable shell integration unit.
#[derive(Debug, Clone, PartialEq)]
pub struct ShellModuleSpec {
    pub package: Option<String>,
    pub env: StrMap<EnvValue>,
    pub aliases: StrMap<String>,
    /// Shell name -> init line emitted verbatim for that shell.
    pub init: StrMap<String>,
}

impl Default for ShellModuleSpec {
    fn default() -> (r: Self)
        ensures
            r.package is None,
            r.env.entries@.len() == 0,
            r.aliases.entries@.len() == 0,
            r.init.entries@.len() == 0,
    {
        ShellModuleSpec { package: None, env: StrMap::new(), aliases: StrMap::new(), init: StrMap::new() }
    }
}

/// A whole manifest.
#[derive(Debug, Clone, PartialEq)]
pub struct SwissConfig {
    pub dependencies: Dependencies,
    pub rust: RustConfig,
    pub nushell: Option<NushellConfig>,
    pub package_manager: PackageManagerConfig,
    pub env: StrMap<EnvRequirement>,
    pub files: Vec<FileSpec>,
    pub shells: StrMap<ShellTargetConfig>,
    pub shell_modules: StrMap<ShellModuleSpec>,
}

impl Default for SwissConfig {
    fn default() -> (r: Self)
        ensures
            r.dependencies.cargo.entries@.len() == 0,
            r.dependencies.customs.entries@.len() == 0,
            r.rust.toolchain@.len() == 0,
            r.rust.components@.len() == 0,
            r.rust.installer.windows is None,
            r.rust.installer.linux is None,
            r.rust.installer.macos is None,
            r.nushell is None,
            r.package_manager.linux is None,
            r.package_manager.windows is None,
            r.package_manager.macos is None,
            r.env.entries@.len() == 0,
            r.files@.len() == 0,
            r.shells.entries@.len() == 0,
            r.shell_modules.entries@.len() == 0,
    {
        SwissConfig {
            dependencies: Dependencies::default(),
            rust: RustConfig::default(),
            nushell: None,
            package_manager: PackageManagerConfig::default(),
            env: StrMap::new(),
            files: Vec::new(),
            shells: StrMap::new(),
            shell_modules: StrMap::new(),
        }
    }
}

impl SwissConfig {
    /// Whether this manifest wants Nushell on the host: an explicit `nushell`
    /// section, or the nushell shell enabled in a mode other than `print`.
    pub open spec fn manages_nushell_view(&self) -> bool {
        ||| self.nushell is Some
        ||| match lookup(self.shells.entries@, "nushell"@) {
            Some(t) => t.enabled && t.mode != Some(ShellMode::Print),
            None => false,
        }
    }

    /// The pinned Nushell version, if any.
    pub open spec fn nushell_version_view(&self) -> Option<Seq<char>> {
        match self.nushell {
            Some(n) => match n.version {
                Some(v) => Some(v@),
                None => None,
            },
            None => None,
        }
    }

    pub fn manages_nushell(&self) -> (r: bool)
        ensures
            r == self.manages_nushell_view(),
    {
        if self.nushell.is_some() {
            return true;
        }
        match self.shells.get("nushell") {
            Some(target) => target.enabled && match target.mode {
                Some(ShellMode::Print) => false,
                _ => true,
            },
            None => false,
        }
    }

    pub fn nushell_version(&self) -> (r: Option<&str>)
        ensures
            match r {
                Some(s) => self.nushell_version_view() == Some(s@),
                None => self.nushell_version_view() is None,
            },
    {
        match &self.nushell {
            Some(n) => match &n.version {
                Some(v) => Some(v.as_str()),
                None => None,
            },
            None => None,
        }
    }
}

} // verus!
